use vstd::prelude::*;

use crate::onoro::PawnColor;
use crate::onoro_impl::{interior, valid_width, OnoroImpl};
use crate::onoro_initialize::{
    color_counts_message,
    distinct_tiles,
    interleave_spec,
    layout_counts_ok,
    too_many_pawns_message,
};
use crate::board_printer::poses_min;
use crate::packed_idx::PackedIdx;

verus! {

/// An error from decoding a game state message.
#[derive(Debug, Clone)]
pub enum Error {
    ProtoDecode(String),
}

/// A pawn of a game state message: its coordinates and color, each of which
/// may be unset.
#[derive(Debug, Clone, Copy, PartialEq, Eq, Structural)]
pub struct Pawn {
    /// The x-coordinate of the pawn.
    pub x: Option<i32>,
    /// The y-coordinate of the pawn, whose axis is 120 degrees
    /// counter-clockwise from the x-axis.
    pub y: Option<i32>,
    /// Whether this is a black pawn, rather than a white one.
    pub black: Option<bool>,
}

impl Pawn {
    /// The x-coordinate, or 0 where it is unset.
    pub fn x(&self) -> (r: i32)
        ensures
            r == match self.x {
                Some(v) => v,
                None => 0,
            },
    {
        match self.x {
            Some(val) => val,
            None => 0i32,
        }
    }

    /// The y-coordinate, or 0 where it is unset.
    pub fn y(&self) -> (r: i32)
        ensures
            r == match self.y {
                Some(v) => v,
                None => 0,
            },
    {
        match self.y {
            Some(val) => val,
            None => 0i32,
        }
    }

    /// Whether the pawn is black, or false where that is unset.
    pub fn black(&self) -> (r: bool)
        ensures
            r == match self.black {
                Some(v) => v,
                None => false,
            },
    {
        match self.black {
            Some(val) => val,
            None => false,
        }
    }
}

/// A game state message: the pawns that have been played, with their
/// coordinates (only the distances between pawns matter), whose turn it is,
/// the turn number, starting from 0, and whether someone has won.
#[derive(Debug, Clone)]
pub struct GameState {
    pub pawns: Vec<Pawn>,
    pub black_turn: Option<bool>,
    pub turn_num: Option<u32>,
    pub finished: Option<bool>,
}

impl GameState {
    /// Whether it is black's turn, or false where that is unset.
    pub fn black_turn(&self) -> (r: bool)
        ensures
            r == match self.black_turn {
                Some(v) => v,
                None => false,
            },
    {
        match self.black_turn {
            Some(val) => val,
            None => false,
        }
    }

    /// The turn number, or 0 where it is unset.
    pub fn turn_num(&self) -> (r: u32)
        ensures
            r == match self.turn_num {
                Some(v) => v,
                None => 0,
            },
    {
        match self.turn_num {
            Some(val) => val,
            None => 0u32,
        }
    }

    /// Whether the game is finished, or false where that is unset.
    pub fn finished(&self) -> (r: bool)
        ensures
            r == match self.finished {
                Some(v) => v,
                None => false,
            },
    {
        match self.finished {
            Some(val) => val,
            None => false,
        }
    }
}

/// A list of game state messages.
#[derive(Debug, Clone)]
pub struct GameStates {
    pub state: Vec<GameState>,
}

/// The message that describes pawn `i` of the first `n` pawns of a game whose
/// positions are `s`: its coordinates, and black for even indices.
pub open spec fn proto_pawn(s: Seq<PackedIdx>, i: int) -> Pawn {
    Pawn { x: Some(s[i].sx() as i32), y: Some(s[i].sy() as i32), black: Some(i % 2 == 0) }
}

/// Both coordinates of the pawn are set.
pub open spec fn both_set(p: Pawn) -> bool {
    p.x is Some && p.y is Some
}

/// The value of an optional coordinate, or 0 where it is unset.
pub open spec fn or_zero(o: Option<i32>) -> int {
    match o {
        Some(v) => v as int,
        None => 0,
    }
}

/// The least x- and y-coordinates of the first `k` pawns whose coordinates
/// are both set, if there is one.
pub open spec fn proto_mins(ps: Seq<Pawn>, k: int) -> Option<(int, int)>
    decreases k,
{
    if k <= 0 {
        None
    } else {
        let prev = proto_mins(ps, k - 1);
        let p = ps[k - 1];
        if both_set(p) {
            let (x, y) = (or_zero(p.x), or_zero(p.y));
            match prev {
                None => Some((x, y)),
                Some((mx, my)) => Some(
                    (
                        if x < mx {
                            x
                        } else {
                            mx
                        },
                        if y < my {
                            y
                        } else {
                            my
                        },
                    ),
                ),
            }
        } else {
            prev
        }
    }
}

/// The coordinate `v` moved so that the least coordinate `m` lands on 1, as
/// a 32-bit number: the difference wraps around.
pub open spec fn wrap_coord(v: int, m: int) -> int {
    (v - m + 1) % 0x1_0000_0000
}

/// The position of the pawn on the board, once the least coordinates `m`
/// land on 1.
pub open spec fn proto_pos(p: Pawn, m: (int, int)) -> (int, int) {
    (wrap_coord(or_zero(p.x), m.0), wrap_coord(or_zero(p.y), m.1))
}

/// The pawn is black; an unset color is white.
pub open spec fn proto_black(p: Pawn) -> bool {
    match p.black {
        Some(b) => b,
        None => false,
    }
}

/// The positions of the first `k` pawns of one color, in order.
pub open spec fn proto_color_positions(ps: Seq<Pawn>, m: (int, int), k: int, black: bool) -> Seq<
    PackedIdx,
>
    decreases k,
{
    if k <= 0 {
        Seq::empty()
    } else {
        let prev = proto_color_positions(ps, m, k - 1, black);
        if proto_black(ps[k - 1]) == black {
            prev.push(PackedIdx::at(proto_pos(ps[k - 1], m).0, proto_pos(ps[k - 1], m).1))
        } else {
            prev
        }
    }
}

/// The positions of the black and of the white pawns of a message, for a
/// board of width `n`: none if no pawn has both coordinates set or a pawn
/// lands off the board.
pub open spec fn proto_layout(ps: Seq<Pawn>, n: int) -> Option<(Seq<PackedIdx>, Seq<PackedIdx>)> {
    match proto_mins(ps, ps.len() as int) {
        None => None,
        Some(m) => if forall|i: int|
            0 <= i < ps.len() ==> #[trigger] proto_pos(ps[i], m).0 < n && proto_pos(ps[i], m).1 < n {
            Some(
                (
                    proto_color_positions(ps, m, ps.len() as int, true),
                    proto_color_positions(ps, m, ps.len() as int, false),
                ),
            )
        } else {
            None
        },
    }
}

proof fn lemma_color_positions_len(ps: Seq<Pawn>, m: (int, int), k: int)
    requires
        0 <= k <= ps.len(),
    ensures
        proto_color_positions(ps, m, k, true).len() + proto_color_positions(ps, m, k, false).len()
            == k,
    decreases k,
{
    if k > 0 {
        lemma_color_positions_len(ps, m, k - 1);
    }
}

/// Describes a pawn off of the board.
#[verifier::external_body]
fn out_of_bounds_message(x: i32, y: i32) -> String {
    format!("x/y out of bounds: {} {}", x, y)
}

/// The coordinate `v` moved so that `m` lands on 1, wrapping around as a
/// 32-bit number.
fn wrapped_coord(v: i32, m: i32) -> (r: i64)
    ensures
        r == wrap_coord(v as int, m as int),
        0 <= r < 0x1_0000_0000,
{
    let d: i64 = v as i64 - m as i64 + 1;
    if d < 0 {
        d + 0x1_0000_0000
    } else if d >= 0x1_0000_0000 {
        d - 0x1_0000_0000
    } else {
        d
    }
}

/// The message of a game: one pawn message per pawn, in order of placement.
pub open spec fn pawns_message(s: Seq<PackedIdx>, n: int) -> Seq<Pawn> {
    Seq::new(n as nat, |i: int| proto_pawn(s, i))
}

/// The position of `p` moved by `1 - m` in each coordinate.
pub open spec fn shifted(p: PackedIdx, m: (int, int)) -> PackedIdx {
    PackedIdx::at(p.sx() - m.0 + 1, p.sy() - m.1 + 1)
}

/// The coordinate of a pawn message of a position.
proof fn lemma_pawn_coords(s: Seq<PackedIdx>, i: int)
    requires
        0 <= i < s.len(),
    ensures
        or_zero(proto_pawn(s, i).x) == s[i].sx(),
        or_zero(proto_pawn(s, i).y) == s[i].sy(),
        both_set(proto_pawn(s, i)),
{
    s[i].lemma_raw();
}

proof fn lemma_mins_of_message(s: Seq<PackedIdx>, n: int, k: int)
    requires
        0 < k <= n <= s.len(),
    ensures
        proto_mins(pawns_message(s, n), k) == Some(
            (poses_min(s, k, 16, false), poses_min(s, k, 16, true)),
        ),
    decreases k,
{
    reveal_with_fuel(proto_mins, 2);
    reveal_with_fuel(poses_min, 2);
    s[k - 1].lemma_raw();
    lemma_pawn_coords(s, k - 1);
    assert(pawns_message(s, n)[k - 1] == proto_pawn(s, k - 1));
    if k > 1 {
        lemma_mins_of_message(s, n, k - 1);
    }
}

proof fn lemma_mins_bound(s: Seq<PackedIdx>, k: int, i: int, use_y: bool)
    requires
        0 <= i < k <= s.len(),
    ensures
        poses_min(s, k, 16, use_y) <= if use_y {
            s[i].sy()
        } else {
            s[i].sx()
        },
        poses_min(s, k, 16, use_y) == if use_y {
            s[poses_min_index(s, k, use_y)].sy()
        } else {
            s[poses_min_index(s, k, use_y)].sx()
        },
        0 <= poses_min_index(s, k, use_y) < k,
    decreases k,
{
    reveal_with_fuel(poses_min, 2);
    s[k - 1].lemma_raw();
    if k > 1 {
        if i < k - 1 {
            lemma_mins_bound(s, k - 1, i, use_y);
        } else {
            lemma_mins_bound(s, k - 1, 0, use_y);
        }
        let j = poses_min_index(s, k - 1, use_y);
        s[j].lemma_raw();
    }
}

/// The index of a pawn with the least coordinate among the first `k`.
pub open spec fn poses_min_index(s: Seq<PackedIdx>, k: int, use_y: bool) -> int
    decreases k,
{
    if k <= 1 {
        0
    } else {
        let j = poses_min_index(s, k - 1, use_y);
        let c = if use_y {
            s[k - 1].sy()
        } else {
            s[k - 1].sx()
        };
        let prev = if use_y {
            s[j].sy()
        } else {
            s[j].sx()
        };
        if c < prev {
            k - 1
        } else {
            j
        }
    }
}

proof fn lemma_colors_of_message(s: Seq<PackedIdx>, n: int, m: (int, int), k: int)
    requires
        0 <= k <= n <= s.len(),
        forall|i: int| 0 <= i < n ==> 0 <= (#[trigger] s[i]).sx() - m.0 + 1 < 16 && 0 <= s[i].sy()
            - m.1 + 1 < 16,
    ensures
        proto_color_positions(pawns_message(s, n), m, k, true).len() == (k + 1) / 2,
        proto_color_positions(pawns_message(s, n), m, k, false).len() == k / 2,
        forall|t: int|
            0 <= t < (k + 1) / 2 ==> #[trigger] proto_color_positions(
                pawns_message(s, n),
                m,
                k,
                true,
            )[t] == shifted(s[2 * t], m),
        forall|t: int|
            0 <= t < k / 2 ==> #[trigger] proto_color_positions(pawns_message(s, n), m, k, false)[t]
                == shifted(s[2 * t + 1], m),
    decreases k,
{
    if k > 0 {
        lemma_colors_of_message(s, n, m, k - 1);
        let ps = pawns_message(s, n);
        let p = ps[k - 1];
        assert(p == proto_pawn(s, k - 1));
        lemma_pawn_coords(s, k - 1);
        assert(proto_pos(p, m) == (s[k - 1].sx() - m.0 + 1, s[k - 1].sy() - m.1 + 1));
    }
}

/// Reading back the message of a game gives the game back, moved so that its
/// least coordinates are 1: the message lays out the pawns of each color in
/// order, every pawn lands off the border and on a tile of its own, with
/// pawn counts that a game has, so that the pawns are placed in the order of
/// the game.
pub proof fn lemma_message_round_trip<const N: usize>(o: OnoroImpl<N>)
    requires
        o.wf(),
    ensures
        ({
            let s = o.poses();
            let n = o.n_spec();
            let m = (poses_min(s, n, 16, false), poses_min(s, n, 16, true));
            let l = proto_layout(pawns_message(s, n), N as int);
            &&& l is Some
            &&& layout_counts_ok(l->Some_0.0.len() as int, l->Some_0.1.len() as int, N as int)
            &&& interleave_spec(l->Some_0.0, l->Some_0.1).len() == n
            &&& n <= N
            &&& distinct_tiles(interleave_spec(l->Some_0.0, l->Some_0.1))
            &&& forall|i: int|
                0 <= i < n ==> interior(#[trigger] interleave_spec(l->Some_0.0, l->Some_0.1)[i], N as int)
                    && interleave_spec(l->Some_0.0, l->Some_0.1)[i].sx() == s[i].sx() - m.0 + 1
                    && interleave_spec(l->Some_0.0, l->Some_0.1)[i].sy() == s[i].sy() - m.1 + 1
        }),
{
    let s = o.poses();
    let n = o.n_spec();
    let ps = pawns_message(s, n);
    lemma_mins_of_message(s, n, n);
    let m = (poses_min(s, n, 16, false), poses_min(s, n, 16, true));
    assert forall|i: int| 0 <= i < n implies 1 <= (#[trigger] s[i]).sx() - m.0 + 1 <= N - 2 && 1
        <= s[i].sy() - m.1 + 1 <= N - 2 by {
        lemma_mins_bound(s, n, i, false);
        lemma_mins_bound(s, n, i, true);
        assert(interior(s[i], N as int));
        assert(interior(s[poses_min_index(s, n, false)], N as int));
        assert(interior(s[poses_min_index(s, n, true)], N as int));
    }
    assert forall|i: int| 0 <= i < ps.len() implies #[trigger] proto_pos(ps[i], m).0 < N
        && proto_pos(ps[i], m).1 < N by {
        assert(ps[i] == proto_pawn(s, i));
        assert(1 <= s[i].sx() - m.0 + 1 <= N - 2);
    }
    lemma_colors_of_message(s, n, m, n);
    let b = proto_color_positions(ps, m, n, true);
    let w = proto_color_positions(ps, m, n, false);
    assert(proto_layout(ps, N as int) == Some((b, w)));
    crate::onoro_initialize::lemma_interleave_index(b, w);
    let all = interleave_spec(b, w);
    assert forall|i: int| 0 <= i < n implies interior(#[trigger] all[i], N as int) && all[i].sx()
        == s[i].sx() - m.0 + 1 && all[i].sy() == s[i].sy() - m.1 + 1 by {
        assert(1 <= s[i].sx() - m.0 + 1 <= N - 2);
        assert(1 <= s[i].sy() - m.1 + 1 <= N - 2);
        if i % 2 == 0 {
            assert(all[i] == b[i / 2]);
            assert(2 * (i / 2) == i);
        } else {
            assert(all[i] == w[i / 2]);
            assert(2 * (i / 2) + 1 == i);
        }
        PackedIdx::lemma_at(s[i].sx() - m.0 + 1, s[i].sy() - m.1 + 1);
    }
    assert forall|i: int, j: int| 0 <= i < j < all.len() implies !(#[trigger] all[i].sx()
        == #[trigger] all[j].sx() && all[i].sy() == all[j].sy()) by {
        assert(s[i] != s[j]);
        s[i].lemma_coords_eq(s[j]);
    }
}

/// A game state to send as a message.
pub struct GameStateProto {
    game_state: GameState,
}

impl GameStateProto {
    /// The game state held in the message.
    pub closed spec fn state(self) -> GameState {
        self.game_state
    }

    pub fn game_state(&self) -> (r: &GameState)
        ensures
            *r == self.state(),
    {
        &self.game_state
    }

    /// Wraps a game state.
    pub fn new(game_state: GameState) -> (r: Self)
        ensures
            r.state() == game_state,
    {
        GameStateProto { game_state }
    }

    /// The message describing `onoro`: every pawn on the board, in order of
    /// placement, whose turn it is, the number of the turn and whether the
    /// game is finished.
    pub fn from_onoro<const N: usize>(onoro: &OnoroImpl<N>) -> (r: Self)
        requires
            onoro.wf(),
        ensures
            r.state().pawns@.len() == onoro.n_spec(),
            forall|i: int|
                0 <= i < onoro.n_spec() ==> #[trigger] r.state().pawns@[i] == proto_pawn(
                    onoro.poses(),
                    i,
                ),
            r.state().black_turn == Some(onoro.player_spec() == PawnColor::Black),
            r.state().turn_num == Some((onoro.n_spec() - 1) as u32),
            r.state().finished == Some(onoro.st().finished_spec()),
    {
        let n = onoro.pawns_in_play() as usize;
        let poses = onoro.pawn_poses();
        let mut pawns: Vec<Pawn> = Vec::new();
        let mut i: usize = 0;
        while i < n
            invariant
                onoro.wf(),
                n == onoro.n_spec(),
                poses@ == onoro.poses(),
                i <= n,
                pawns@.len() == i,
                forall|j: int| 0 <= j < i ==> #[trigger] pawns@[j] == proto_pawn(onoro.poses(), j),
            decreases n - i,
        {
            let p = poses[i];
            pawns.push(Pawn { x: Some(p.x() as i32), y: Some(p.y() as i32), black: Some(i % 2 == 0) });
            i += 1;
        }
        let black_turn = match onoro.player_color() {
            PawnColor::Black => true,
            PawnColor::White => false,
        };
        GameStateProto {
            game_state: GameState {
                pawns,
                black_turn: Some(black_turn),
                turn_num: Some(onoro.pawns_in_play() - 1),
                finished: Some(onoro.finished().is_some()),
            },
        }
    }

    /// The game that this message describes: the pawns are moved so that the
    /// least coordinates are 1, then placed in turns from the first black
    /// pawn. Fails if no pawn has both coordinates set, if a pawn lands off
    /// the board, on pawn counts that no game has, and where the pawns cannot
    /// be placed (on one tile, or onto the border of the board).
    pub fn to_onoro<const N: usize>(&self) -> (r: Result<OnoroImpl<N>, Error>)
        requires
            valid_width(N as int),
        ensures
            ({
                let ps = self.state().pawns@;
                let l = proto_layout(ps, N as int);
                &&& l is None ==> r is Err
                &&& l matches Some((b, w)) ==> {
                    let all = interleave_spec(b, w);
                    &&& !layout_counts_ok(b.len() as int, w.len() as int, N as int) ==> r is Err
                    &&& (layout_counts_ok(b.len() as int, w.len() as int, N as int) && forall|i: int|
                        0 <= i < all.len() ==> interior(#[trigger] all[i], N as int)) ==> (r is Ok <==> (
                    all.len() <= N && distinct_tiles(all)))
                    &&& (r is Ok && forall|i: int|
                        0 <= i < all.len() ==> interior(#[trigger] all[i], N as int)) ==> forall|i: int|
                        0 <= i < all.len() ==> #[trigger] r->Ok_0.poses()[i].sx() == all[i].sx()
                            && r->Ok_0.poses()[i].sy() == all[i].sy()
                }
                &&& r is Ok ==> l is Some && layout_counts_ok(
                    l->Some_0.0.len() as int,
                    l->Some_0.1.len() as int,
                    N as int,
                ) && r->Ok_0.wf() && r->Ok_0.n_spec() == ps.len()
                &&& r is Ok ==> (r->Ok_0.st().black_turn_spec() <==> ps.len() % 2 == 0)
            }),
    {
        let pawns = &self.game_state.pawns;
        let ghost ps = pawns@;
        let mut mins: Option<(i32, i32)> = None;
        let mut i: usize = 0;
        while i < pawns.len()
            invariant
                ps == pawns@,
                ps == self.state().pawns@,
                i <= pawns.len(),
                match mins {
                    None => proto_mins(ps, i as int) is None,
                    Some((x, y)) => proto_mins(ps, i as int) == Some((x as int, y as int)),
                },
            decreases pawns.len() - i,
        {
            let p = pawns[i];
            if let (Some(x), Some(y)) = (p.x, p.y) {
                mins = match mins {
                    None => Some((x, y)),
                    Some((mx, my)) => Some(
                        (
                            if x < mx {
                                x
                            } else {
                                mx
                            },
                            if y < my {
                                y
                            } else {
                                my
                            },
                        ),
                    ),
                };
            }
            i += 1;
        }
        let (min_x, min_y) = match mins {
            Some(m) => m,
            None => {
                return Err(Error::ProtoDecode("No valid pawns".to_owned()));
            },
        };
        let ghost m = (min_x as int, min_y as int);
        let mut black: Vec<PackedIdx> = Vec::new();
        let mut white: Vec<PackedIdx> = Vec::new();
        let mut i: usize = 0;
        while i < pawns.len()
            invariant
                ps == pawns@,
                ps == self.state().pawns@,
                valid_width(N as int),
                m == (min_x as int, min_y as int),
                proto_mins(ps, ps.len() as int) == Some(m),
                i <= pawns.len(),
                forall|j: int|
                    0 <= j < i ==> #[trigger] proto_pos(ps[j], m).0 < N && proto_pos(ps[j], m).1 < N,
                black@ == proto_color_positions(ps, m, i as int, true),
                white@ == proto_color_positions(ps, m, i as int, false),
            decreases pawns.len() - i,
        {
            let p = pawns[i];
            let x = wrapped_coord(p.x(), min_x);
            let y = wrapped_coord(p.y(), min_y);
            assert(proto_pos(ps[i as int], m) == (x as int, y as int));
            if x >= N as i64 || y >= N as i64 {
                proof {
                    let q = proto_pos(ps[i as int], m);
                    assert(!(q.0 < N && q.1 < N));
                    assert(proto_layout(ps, N as int) is None);
                }
                return Err(Error::ProtoDecode(out_of_bounds_message(p.x(), p.y())));
            }
            let pos = PackedIdx::new(x as u32, y as u32);
            proof {
                assert forall|j: int| 0 <= j < i + 1 implies #[trigger] proto_pos(ps[j], m).0 < N
                    && proto_pos(ps[j], m).1 < N by {
                    if j == i {
                        assert(proto_pos(ps[j], m) == (x as int, y as int));
                    }
                }
                PackedIdx::lemma_at(x as int, y as int);
                pos.lemma_coords_eq(PackedIdx::at(x as int, y as int));
            }
            if p.black() {
                black.push(pos);
            } else {
                white.push(pos);
            }
            i += 1;
        }
        proof {
            lemma_color_positions_len(ps, m, ps.len() as int);
        }
        if black.len() > N || white.len() > N {
            return Err(Error::ProtoDecode(too_many_pawns_message(black.len(), white.len())));
        }
        if black.len() == 0 {
            return Err(
                Error::ProtoDecode(
                    "Must have at least one black pawn placed, since they are the first player.".to_owned(),
                ),
            );
        }
        if !(black.len() - 1 <= white.len() && white.len() <= black.len()) {
            return Err(Error::ProtoDecode(color_counts_message(black.len(), white.len())));
        }
        match OnoroImpl::<N>::from_colored_positions(black, white) {
            Some(game) => Ok(game),
            None => Err(Error::ProtoDecode("Pawns cannot be placed on the board.".to_owned())),
        }
    }
}


/// Decoding places the pawns of a message as moves in turn, black first,
/// each passing the turn to the other player: a decoded game has black to
/// move exactly when the message holds an even number of pawns, also when
/// all the pawns are on the board; and decoding a message with one more pawn
/// gives the move to the other player.
pub proof fn lemma_to_onoro_turn<const N: usize>(
    m1: &GameStateProto,
    r1: Result<OnoroImpl<N>, Error>,
    m2: &GameStateProto,
    r2: Result<OnoroImpl<N>, Error>,
)
    requires
        call_ensures(GameStateProto::to_onoro::<N>, (m1,), r1),
        call_ensures(GameStateProto::to_onoro::<N>, (m2,), r2),
        r1 is Ok,
        r2 is Ok,
        m2.state().pawns@.len() == m1.state().pawns@.len() + 1,
    ensures
        r1->Ok_0.st().black_turn_spec() <==> m1.state().pawns@.len() % 2 == 0,
        r1->Ok_0.n_spec() == m1.state().pawns@.len(),
        r2->Ok_0.st().black_turn_spec() == !r1->Ok_0.st().black_turn_spec(),
{
}
} // verus!
