use vstd::prelude::*;

use crate::hex_pos::{HexPos, HexPosOffset};
use crate::onoro::{Move, Pawn, PawnColor, TileState};
use crate::onoro_state::OnoroState;
use crate::packed_hex_pos::PackedHexPos;
use crate::packed_idx::{lemma_add_offset_coords, pack_spec, IdxOffset, PackedIdx};

verus! {

broadcast use {PackedIdx::lemma_raw, IdxOffset::lemma_raw};

/// Board widths for which the game is defined: `N` pawns in total, `N / 2`
/// per player, on an `N x N` board of 4-bit coordinates.
pub open spec fn valid_width(n: int) -> bool {
    4 <= n <= 16 && n % 2 == 0
}

/// A pawn is off the border of an `n x n` board.
pub open spec fn interior(p: PackedIdx, n: int) -> bool {
    1 <= p.sx() <= n - 2 && 1 <= p.sy() <= n - 2
}

/// The sum of the x-coordinates of the first `k` positions.
pub open spec fn sum_x(s: Seq<PackedIdx>, k: int) -> int
    decreases k,
{
    if k <= 0 {
        0
    } else {
        sum_x(s, k - 1) + s[k - 1].sx()
    }
}

/// The sum of the y-coordinates of the first `k` positions.
pub open spec fn sum_y(s: Seq<PackedIdx>, k: int) -> int
    decreases k,
{
    if k <= 0 {
        0
    } else {
        sum_y(s, k - 1) + s[k - 1].sy()
    }
}

/// A pawn whose index has parity `p` (0: black, 1: white) is among the first
/// `n` pawns at (x, y).
pub open spec fn has_pawn_at(s: Seq<PackedIdx>, n: int, p: int, x: int, y: int) -> bool {
    exists|i: int| 0 <= i < n && i % 2 == p && #[trigger] s[i].sx() == x && s[i].sy() == y
}

/// The contents of the tile (x, y) on the board of the first `n` pawns of `s`,
/// where even-indexed pawns are black and odd-indexed pawns are white.
pub open spec fn tile_at(s: Seq<PackedIdx>, n: int, x: int, y: int) -> TileState {
    if has_pawn_at(s, n, 0, x, y) {
        TileState::Black
    } else if has_pawn_at(s, n, 1, x, y) {
        TileState::White
    } else {
        TileState::Empty
    }
}

/// There are four pawns of parity `p` in a row on the line through (lx, ly)
/// in direction (dx, dy).
pub open spec fn four_in_a_row_dir(
    s: Seq<PackedIdx>,
    n: int,
    p: int,
    lx: int,
    ly: int,
    dx: int,
    dy: int,
) -> bool {
    exists|t: int| #[trigger] run_of_four(s, n, p, lx, ly, dx, dy, t)
}

/// Pawns of parity `p` are on the four tiles `(lx, ly) + (t + j) * (dx, dy)`
/// for `j` in `0..4`.
pub open spec fn occ_line(
    s: Seq<PackedIdx>,
    n: int,
    p: int,
    lx: int,
    ly: int,
    dx: int,
    dy: int,
    k: int,
) -> bool {
    has_pawn_at(s, n, p, lx + k * dx, ly + k * dy)
}

pub open spec fn run_of_four(
    s: Seq<PackedIdx>,
    n: int,
    p: int,
    lx: int,
    ly: int,
    dx: int,
    dy: int,
    t: int,
) -> bool {
    forall|j: int| 0 <= j < 4 ==> #[trigger] occ_line(s, n, p, lx, ly, dx, dy, t + j)
}

/// The player of parity `p` has four pawns in a row on one of the three lines
/// through (lx, ly).
pub open spec fn four_in_a_row(s: Seq<PackedIdx>, n: int, p: int, lx: int, ly: int) -> bool {
    four_in_a_row_dir(s, n, p, lx, ly, 1, 0) || four_in_a_row_dir(s, n, p, lx, ly, 0, 1)
        || four_in_a_row_dir(s, n, p, lx, ly, 1, 1)
}

/// The board `after` is the board `before` after the pawn with index `k`
/// moved to `dest` and every pawn was shifted to stay off of the border of an
/// `w x w` board: the first `n_new` pawns of `after`, the rest being null.
pub open spec fn moved_spec(
    before: Seq<PackedIdx>,
    after: Seq<PackedIdx>,
    k: int,
    dest: PackedIdx,
    n_new: int,
    w: int,
) -> bool {
    let sh = shift_spec(dest, w);
    &&& after.len() == w
    &&& forall|i: int|
        0 <= i < n_new ==> #[trigger] after[i].sx() == (if i == k {
            dest.sx()
        } else {
            before[i].sx()
        }) + sh.0 && after[i].sy() == (if i == k {
            dest.sy()
        } else {
            before[i].sy()
        }) + sh.1
    &&& forall|i: int| n_new <= i < w ==> (#[trigger] after[i]).raw() == 0
}

/// The offset applied to every pawn after a pawn lands on `p`, which keeps
/// pawns off of the border of an `n x n` board.
pub open spec fn shift_spec(p: PackedIdx, n: int) -> (int, int) {
    (
        if p.sx() == 0 {
            1
        } else if p.sx() == n - 1 {
            -1
        } else {
            0
        },
        if p.sy() == 0 {
            1
        } else if p.sy() == n - 1 {
            -1
        } else {
            0
        },
    )
}

pub proof fn lemma_sum_update(s: Seq<PackedIdx>, k: int, v: PackedIdx, n: int)
    requires
        0 <= k < n <= s.len(),
    ensures
        sum_x(s.update(k, v), n) == sum_x(s, n) - s[k].sx() + v.sx(),
        sum_y(s.update(k, v), n) == sum_y(s, n) - s[k].sy() + v.sy(),
    decreases n,
{
    if n - 1 > k {
        lemma_sum_update(s, k, v, n - 1);
    } else {
        lemma_sum_prefix_eq(s, s.update(k, v), k);
    }
}

pub proof fn lemma_sum_prefix_eq(s: Seq<PackedIdx>, t: Seq<PackedIdx>, n: int)
    requires
        0 <= n <= s.len(),
        n <= t.len(),
        forall|i: int| 0 <= i < n ==> s[i] == t[i],
    ensures
        sum_x(s, n) == sum_x(t, n),
        sum_y(s, n) == sum_y(t, n),
    decreases n,
{
    if n > 0 {
        lemma_sum_prefix_eq(s, t, n - 1);
    }
}

pub proof fn lemma_sum_shift(s: Seq<PackedIdx>, t: Seq<PackedIdx>, n: int, dx: int, dy: int)
    requires
        0 <= n <= s.len(),
        n <= t.len(),
        forall|i: int| 0 <= i < n ==> #[trigger] t[i].sx() == s[i].sx() + dx && t[i].sy() == s[i].sy() + dy,
    ensures
        sum_x(t, n) == sum_x(s, n) + n * dx,
        sum_y(t, n) == sum_y(s, n) + n * dy,
    decreases n,
{
    if n > 0 {
        lemma_sum_shift(s, t, n - 1, dx, dy);
        assert(t[n - 1].sx() == s[n - 1].sx() + dx);
        assert(sum_x(t, n) == sum_x(t, n - 1) + t[n - 1].sx());
        assert(sum_y(t, n) == sum_y(t, n - 1) + t[n - 1].sy());
        assert(sum_x(s, n) == sum_x(s, n - 1) + s[n - 1].sx());
        assert(sum_y(s, n) == sum_y(s, n - 1) + s[n - 1].sy());
        assert((n - 1) * dx + dx == n * dx) by (nonlinear_arith);
        assert((n - 1) * dy + dy == n * dy) by (nonlinear_arith);
        assert(sum_x(t, n) == sum_x(s, n) + n * dx);
    } else {
        assert(n * dx == 0 && n * dy == 0) by (nonlinear_arith)
            requires
                n == 0,
        ;
    }
}

pub proof fn lemma_sum_bounds(s: Seq<PackedIdx>, n: int)
    requires
        0 <= n <= s.len(),
    ensures
        0 <= sum_x(s, n) <= 15 * n,
        0 <= sum_y(s, n) <= 15 * n,
    decreases n,
{
    if n > 0 {
        lemma_sum_bounds(s, n - 1);
        s[n - 1].lemma_raw();
    }
}

/// An Onoro game state with `N / 2` pawns per player on an `N x N` board.
///
/// The first `pawns_in_play` entries of `pawn_poses` are the positions of the
/// pawns on the board, in the order they were placed: even entries are black
/// pawns, odd entries are white. The other entries are null.
#[derive(Clone, Debug)]
pub struct OnoroImpl<const N: usize> {
    pawn_poses: Vec<PackedIdx>,
    state: OnoroState,
    // Sum of the positions of all pawns on the board.
    sum_of_mass: PackedHexPos,
}

impl<const N: usize> OnoroImpl<N> {
    /// The positions of the pawns, in order of placement.
    pub closed spec fn poses(self) -> Seq<PackedIdx> {
        self.pawn_poses@
    }

    /// The turn counter and flags.
    pub closed spec fn st(self) -> OnoroState {
        self.state
    }

    /// The sum of the positions of the pawns on the board.
    pub closed spec fn com(self) -> PackedHexPos {
        self.sum_of_mass
    }

    /// The number of pawns on the board.
    pub open spec fn n_spec(self) -> int {
        self.st().turn_spec() as int + 1
    }

    /// The tile (x, y) of this board.
    pub open spec fn tile_spec(self, x: int, y: int) -> TileState {
        tile_at(self.poses(), self.n_spec(), x, y)
    }

    /// The color whose turn it is.
    pub open spec fn player_spec(self) -> PawnColor {
        if self.st().black_turn_spec() {
            PawnColor::Black
        } else {
            PawnColor::White
        }
    }

    /// The game is in its first phase, where pawns are placed.
    pub open spec fn in_phase1_spec(self) -> bool {
        self.n_spec() < N
    }

    /// The invariant of every game state.
    pub open spec fn wf(self) -> bool {
        &&& valid_width(N as int)
        &&& self.poses().len() == N
        &&& self.st().wf()
        &&& self.n_spec() <= N
        &&& forall|i: int| 0 <= i < self.n_spec() ==> interior(#[trigger] self.poses()[i], N as int)
        &&& forall|i: int| self.n_spec() <= i < N ==> (#[trigger] self.poses()[i]).raw() == 0
        &&& forall|i: int, j: int|
            0 <= i < j < self.n_spec() ==> #[trigger] self.poses()[i] != #[trigger] self.poses()[j]
        &&& self.com().x == sum_x(self.poses(), self.n_spec())
        &&& self.com().y == sum_y(self.poses(), self.n_spec())
        &&& self.in_phase1_spec() ==> (self.st().black_turn_spec() <==> self.n_spec() % 2 == 0)
    }

    /// Moving the pawn with index `k` to `dest`, on a board which will have
    /// `n_new` pawns, keeps every pawn off of the border and on distinct
    /// tiles once the board is shifted.
    pub open spec fn move_fits_spec(self, k: int, dest: PackedIdx, n_new: int) -> bool {
        let sh = shift_spec(dest, N as int);
        &&& 0 <= k < n_new <= N
        &&& dest.sx() < N && dest.sy() < N
        &&& 1 <= dest.sx() + sh.0 <= N - 2
        &&& 1 <= dest.sy() + sh.1 <= N - 2
        &&& forall|i: int|
            0 <= i < n_new && i != k ==> !(#[trigger] self.poses()[i].sx() == dest.sx()
                && self.poses()[i].sy() == dest.sy())
        &&& forall|i: int|
            0 <= i < n_new && i != k ==> 1 <= #[trigger] self.poses()[i].sx() + sh.0 <= N - 2 && 1
                <= self.poses()[i].sy() + sh.1 <= N - 2
    }

    /// The move `m` can be made from this state.
    pub open spec fn can_make_move(self, m: Move) -> bool {
        match m {
            Move::Phase1Move { to } => {
                &&& self.in_phase1_spec()
                &&& self.move_fits_spec(self.n_spec(), to, self.n_spec() + 1)
            },
            Move::Phase2Move { to, from_idx } => {
                &&& !self.in_phase1_spec()
                &&& self.move_fits_spec(from_idx as int, to, self.n_spec())
            },
        }
    }

    /// The width of the board, which bounds the coordinates of positions.
    pub fn board_width() -> (r: usize)
        ensures
            r == N,
    {
        N
    }

    /// The number of tiles of the board.
    pub fn board_size() -> (r: usize)
        requires
            N <= 16,
        ensures
            r == N * N,
    {
        proof {
            assert(N * N <= 256) by (nonlinear_arith)
                requires
                    N <= 16,
            ;
        }
        N * N
    }

    pub fn symm_state_table_width() -> (r: usize)
        ensures
            r == N,
    {
        N
    }

    /// The number of elements of the symmetry state table.
    pub fn symm_state_table_size() -> (r: usize)
        requires
            N <= 16,
        ensures
            r == N * N,
    {
        proof {
            assert(N * N <= 256) by (nonlinear_arith)
                requires
                    N <= 16,
            ;
        }
        Self::symm_state_table_width() * Self::symm_state_table_width()
    }

    pub fn pawns_per_player() -> (r: usize)
        ensures
            r == N / 2,
    {
        N / 2
    }

    /// Converts a position on the board to its ordinal `x + y * N`.
    pub fn hex_pos_ord(pos: &HexPos) -> (r: usize)
        requires
            N <= 16,
            pos.x < N,
            pos.y < N,
        ensures
            r == pos.x + pos.y * N,
    {
        proof {
            assert(pos.y * N <= 15 * 16) by (nonlinear_arith)
                requires
                    N <= 16,
                    pos.y < N,
            ;
        }
        pos.x as usize + (pos.y as usize) * N
    }

    /// The inverse of `hex_pos_ord`.
    pub fn ord_to_hex_pos(ord: usize) -> (r: HexPos)
        requires
            0 < N <= 16,
            ord < N * N,
        ensures
            r.x == (ord as int) % (N as int),
            r.y == (ord as int) / (N as int),
    {
        proof {
            vstd::arithmetic::div_mod::lemma_div_is_ordered(ord as int, N * N, N as int);
            vstd::arithmetic::div_mod::lemma_div_by_multiple(N as int, N as int);
        }
        HexPos::new((ord % N) as u32, (ord / N) as u32)
    }

    /// The positions of the pawns.
    pub fn pawn_poses(&self) -> (r: &Vec<PackedIdx>)
        ensures
            r@ == self.poses(),
    {
        &self.pawn_poses
    }

    pub fn onoro_state(&self) -> (r: &OnoroState)
        ensures
            *r == self.st(),
    {
        &self.state
    }

    /// The sum of the positions of the pawns on the board.
    pub fn sum_of_mass(&self) -> (r: PackedHexPos)
        ensures
            r == self.com(),
    {
        self.sum_of_mass
    }

    /// The number of pawns on the board.
    pub fn pawns_in_play(&self) -> (r: u32)
        requires
            self.wf(),
        ensures
            r == self.n_spec(),
            1 <= r <= N,
    {
        self.state.turn() + 1
    }

    /// Passes the turn to the other player, in the second phase of the game.
    pub(crate) fn swap_turn(&mut self)
        requires
            old(self).wf(),
            !old(self).in_phase1_spec(),
        ensures
            final(self).wf(),
            final(self).poses() == old(self).poses(),
            final(self).n_spec() == old(self).n_spec(),
            final(self).st().black_turn_spec() == !old(self).st().black_turn_spec(),
            final(self).st().finished_spec() == old(self).st().finished_spec(),
    {
        self.state.swap_player_turn();
    }

    /// The color of the current player.
    pub fn player_color(&self) -> (r: PawnColor)
        ensures
            r == self.player_spec(),
    {
        if self.state.black_turn() {
            PawnColor::Black
        } else {
            PawnColor::White
        }
    }

    /// The color of the current player.
    pub fn turn(&self) -> (r: PawnColor)
        ensures
            r == self.player_spec(),
    {
        self.player_color()
    }

    /// If the game is over, the color of the player who won, which is the
    /// player who made the last move.
    pub fn finished(&self) -> (r: Option<PawnColor>)
        ensures
            r.is_some() == self.st().finished_spec(),
            r.is_some() ==> r.unwrap() == self.player_spec().opposite_spec(),
    {
        if self.state.finished() {
            if self.state.black_turn() {
                Some(PawnColor::White)
            } else {
                Some(PawnColor::Black)
            }
        } else {
            None
        }
    }

    /// Whether the next move places a new pawn, rather than moving one.
    pub fn in_phase1(&self) -> (r: bool)
        requires
            self.wf(),
        ensures
            r == self.in_phase1_spec(),
    {
        self.state.turn() < N as u32 - 1
    }

    /// Whether a pawn of parity `p` is on the tile (x, y).
    pub fn has_pawn_at_exec(&self, p: usize, x: i32, y: i32) -> (r: bool)
        requires
            self.wf(),
            p < 2,
        ensures
            r == has_pawn_at(self.poses(), self.n_spec(), p as int, x as int, y as int),
    {
        let n = self.pawns_in_play() as usize;
        let mut i: usize = 0;
        while i < n
            invariant
                self.wf(),
                n == self.n_spec(),
                i <= n,
                p < 2,
                forall|j: int|
                    0 <= j < i && j % 2 == p ==> !(#[trigger] self.poses()[j].sx() == x
                        && self.poses()[j].sy() == y),
            decreases n - i,
        {
            if i % 2 == p {
                let pos = self.pawn_poses[i];
                if pos.x() as i32 == x && pos.y() as i32 == y {
                    return true;
                }
            }
            i += 1;
        }
        false
    }

    /// The index of the pawn at `idx`, if there is one.
    pub fn get_pawn_idx_slow(&self, idx: PackedIdx) -> (r: Option<u32>)
        requires
            self.wf(),
        ensures
            r.is_some() <==> exists|i: int| 0 <= i < self.n_spec() && #[trigger] self.poses()[i] == idx,
            r.is_some() ==> r.unwrap() < self.n_spec() && self.poses()[r.unwrap() as int] == idx,
    {
        let n = self.pawns_in_play() as usize;
        let mut i: usize = 0;
        while i < n
            invariant
                self.wf(),
                n == self.n_spec(),
                i <= n,
                forall|j: int| 0 <= j < i ==> #[trigger] self.poses()[j] != idx,
            decreases n - i,
        {
            if self.pawn_poses[i] == idx {
                return Some(i as u32);
            }
            i += 1;
        }
        None
    }

    /// The index of the pawn at `idx`, which must hold a pawn.
    pub fn get_pawn_idx(&self, idx: PackedIdx) -> (r: u32)
        requires
            self.wf(),
            exists|i: int| 0 <= i < self.n_spec() && #[trigger] self.poses()[i] == idx,
        ensures
            r < self.n_spec(),
            self.poses()[r as int] == idx,
    {
        match self.get_pawn_idx_slow(idx) {
            Some(i) => i,
            None => 0,
        }
    }

    /// The contents of the tile at (x, y).
    pub fn get_tile_xy(&self, x: i32, y: i32) -> (r: TileState)
        requires
            self.wf(),
        ensures
            r == self.tile_spec(x as int, y as int),
    {
        if self.has_pawn_at_exec(0, x, y) {
            TileState::Black
        } else if self.has_pawn_at_exec(1, x, y) {
            TileState::White
        } else {
            TileState::Empty
        }
    }

    /// The contents of the tile at `idx`.
    pub fn get_tile(&self, idx: PackedIdx) -> (r: TileState)
        requires
            self.wf(),
        ensures
            r == self.tile_spec(idx.sx(), idx.sy()),
    {
        self.get_tile_xy(idx.x() as i32, idx.y() as i32)
    }

    /// The contents of the tile at `idx`, found by the index of its pawn.
    pub fn get_tile_slow(&self, idx: PackedIdx) -> (r: TileState)
        requires
            self.wf(),
        ensures
            r == self.tile_spec(idx.sx(), idx.sy()),
    {
        match self.get_pawn_idx_slow(idx) {
            Some(i) => {
                proof {
                    let s = self.poses();
                    let n = self.n_spec();
                    assert forall|j: int|
                        0 <= j < n && #[trigger] s[j].sx() == idx.sx() && s[j].sy() == idx.sy()
                        implies j == i by {
                        s[j].lemma_coords_eq(idx);
                    }
                }
                if i % 2 == 0 {
                    TileState::Black
                } else {
                    TileState::White
                }
            },
            None => {
                proof {
                    let s = self.poses();
                    let n = self.n_spec();
                    assert forall|j: int|
                        0 <= j < n implies !(#[trigger] s[j].sx() == idx.sx() && s[j].sy()
                        == idx.sy()) by {
                        s[j].lemma_coords_eq(idx);
                    }
                }
                TileState::Empty
            },
        }
    }

    /// The pawns on the board, in order of placement.
    pub fn pawns(&self) -> (r: Vec<Pawn>)
        requires
            self.wf(),
        ensures
            r.len() == self.n_spec(),
            forall|i: int|
                0 <= i < r.len() ==> (#[trigger] r[i]).pos == self.poses()[i] && r[i].board_idx == i
                    && r[i].color == (if i % 2 == 0 {
                    PawnColor::Black
                } else {
                    PawnColor::White
                }),
    {
        let n = self.pawns_in_play() as usize;
        let mut v: Vec<Pawn> = Vec::new();
        let mut i: usize = 0;
        while i < n
            invariant
                self.wf(),
                n == self.n_spec(),
                i <= n,
                v.len() == i,
                forall|j: int|
                    0 <= j < i ==> (#[trigger] v[j]).pos == self.poses()[j] && v[j].board_idx == j
                        && v[j].color == (if j % 2 == 0 {
                        PawnColor::Black
                    } else {
                        PawnColor::White
                    }),
            decreases n - i,
        {
            let color = if i % 2 == 0 {
                PawnColor::Black
            } else {
                PawnColor::White
            };
            v.push(Pawn { pos: self.pawn_poses[i], color, board_idx: i as u8 });
            i += 1;
        }
        v
    }

    /// The pawns of one color, in order of placement.
    pub fn color_pawns(&self, color: PawnColor) -> (r: Vec<Pawn>)
        requires
            self.wf(),
        ensures
            ({
                let par: int = if color == PawnColor::Black {
                    0
                } else {
                    1
                };
                &&& r.len() == (self.n_spec() + 1 - par) / 2
                &&& forall|j: int|
                    0 <= j < r.len() ==> (#[trigger] r[j]).color == color && r[j].board_idx == 2
                        * j + par && r[j].pos == self.poses()[2 * j + par]
            }),
    {
        let n = self.pawns_in_play() as usize;
        let ghost par: int = if color == PawnColor::Black {
            0
        } else {
            1
        };
        let mut v: Vec<Pawn> = Vec::new();
        let mut i: usize = match color {
            PawnColor::Black => 0,
            PawnColor::White => 1,
        };
        while i < n
            invariant
                self.wf(),
                n == self.n_spec(),
                i == 2 * v.len() + par,
                i <= n + 1,
                par == (if color == PawnColor::Black {
                    0int
                } else {
                    1int
                }),
                forall|j: int|
                    0 <= j < v.len() ==> (#[trigger] v[j]).color == color && v[j].board_idx == 2
                        * j + par && v[j].pos == self.poses()[2 * j + par],
            decreases n + 1 - i,
        {
            v.push(Pawn { pos: self.pawn_poses[i], color, board_idx: i as u8 });
            i += 2;
        }
        v
    }

    /// The offset to apply to every pawn after a pawn lands on `m`, which
    /// keeps pawns off of the border.
    pub fn calc_move_shift(m: PackedIdx) -> (r: HexPosOffset)
        requires
            1 <= N <= 16,
        ensures
            (r.x as int, r.y as int) == shift_spec(m, N as int),
    {
        let mut dx: i32 = 0;
        let mut dy: i32 = 0;
        if m.y() == 0 {
            dy = 1;
        } else if m.y() == N as u32 - 1 {
            dy = -1;
        }
        if m.x() == 0 {
            dx = 1;
        } else if m.x() == N as u32 - 1 {
            dx = -1;
        }
        HexPosOffset::new(dx, dy)
    }

    /// Whether the move `m` can be made from this state.
    pub fn move_fits(&self, m: Move) -> (r: bool)
        requires
            self.wf(),
        ensures
            r == self.can_make_move(m),
    {
        let n = self.pawns_in_play() as usize;
        match m {
            Move::Phase1Move { to } => {
                if !self.in_phase1() {
                    return false;
                }
                self.fits(n, to, n + 1)
            },
            Move::Phase2Move { to, from_idx } => {
                if self.in_phase1() {
                    return false;
                }
                if from_idx as usize >= n {
                    return false;
                }
                self.fits(from_idx as usize, to, n)
            },
        }
    }

    fn fits(&self, k: usize, dest: PackedIdx, n_new: usize) -> (r: bool)
        requires
            self.wf(),
        ensures
            r == self.move_fits_spec(k as int, dest, n_new as int),
    {
        if !(k < n_new && n_new <= N) {
            return false;
        }
        if !(dest.x() < N as u32 && dest.y() < N as u32) {
            return false;
        }
        let sh = Self::calc_move_shift(dest);
        let nx = dest.x() as i32 + sh.x;
        let ny = dest.y() as i32 + sh.y;
        if !(1 <= nx && nx <= N as i32 - 2 && 1 <= ny && ny <= N as i32 - 2) {
            return false;
        }
        let mut i: usize = 0;
        while i < n_new
            invariant
                self.wf(),
                k < n_new <= N,
                i <= n_new,
                (sh.x as int, sh.y as int) == shift_spec(dest, N as int),
                forall|j: int|
                    0 <= j < i && j != k ==> !(#[trigger] self.poses()[j].sx() == dest.sx()
                        && self.poses()[j].sy() == dest.sy()),
                forall|j: int|
                    0 <= j < i && j != k ==> 1 <= #[trigger] self.poses()[j].sx() + sh.x <= N - 2
                        && 1 <= self.poses()[j].sy() + sh.y <= N - 2,
            decreases n_new - i,
        {
            if i != k {
                let p = self.pawn_poses[i];
                if p.x() == dest.x() && p.y() == dest.y() {
                    return false;
                }
                let px = p.x() as i32 + sh.x;
                let py = p.y() as i32 + sh.y;
                if !(1 <= px && px <= N as i32 - 2 && 1 <= py && py <= N as i32 - 2) {
                    return false;
                }
            }
            i += 1;
        }
        true
    }

    /// Whether the pawns of parity `p` have four in a row on the line through
    /// (lx, ly) in direction (dx, dy), one of (1, 0), (0, 1), (1, 1).
    fn scan_line(&self, p: usize, lx: i32, ly: i32, dx: i32, dy: i32) -> (r: bool)
        requires
            self.wf(),
            p < 2,
            0 <= lx < 16,
            0 <= ly < 16,
            (dx == 1 && dy == 0) || (dx == 0 && dy == 1) || (dx == 1 && dy == 1),
        ensures
            r == four_in_a_row_dir(self.poses(), self.n_spec(), p as int, lx as int, ly as int, dx as int, dy as int),
    {
        let ghost s = self.poses();
        let ghost n = self.n_spec();
        proof {
            assert forall|k: int| #[trigger] occ_line(s, n, p as int, lx as int, ly as int, dx as int, dy as int, k)
                implies -16 <= k <= 16 by {
                let i = choose|i: int| 0 <= i < n && i % 2 == p && #[trigger] s[i].sx() == lx + k * dx && s[i].sy() == ly + k * dy;
                assert(interior(s[i], N as int));
                if dx == 1 {
                    assert(k * dx == k) by (nonlinear_arith) requires dx == 1;
                } else {
                    assert(k * dy == k) by (nonlinear_arith) requires dy == 1;
                }
            }
        }
        proof {
            assert forall|t: int| t <= -20 implies !#[trigger] run_of_four(s, n, p as int, lx as int, ly as int, dx as int, dy as int, t) by {
                assert(!occ_line(s, n, p as int, lx as int, ly as int, dx as int, dy as int, t + 0));
            }
        }
        let mut k: i32 = -16;
        let mut run: u32 = 0;
        while k <= 16
            invariant
                self.wf(),
                s == self.poses(),
                n == self.n_spec(),
                p < 2,
                0 <= lx < 16,
                0 <= ly < 16,
                (dx == 1 && dy == 0) || (dx == 0 && dy == 1) || (dx == 1 && dy == 1),
                -16 <= k <= 17,
                run <= 3,
                run <= k + 16,
                forall|k: int| #[trigger] occ_line(s, n, p as int, lx as int, ly as int, dx as int, dy as int, k) ==> -16 <= k <= 16,
                forall|i: int| 0 <= i < run ==> #[trigger] occ_line(s, n, p as int, lx as int, ly as int, dx as int, dy as int, k - 1 - i),
                (run < 3 && k - 1 - run >= -16) ==> !occ_line(s, n, p as int, lx as int, ly as int, dx as int, dy as int, k - 1 - run),
                forall|t: int| t <= k - 4 ==> !#[trigger] run_of_four(s, n, p as int, lx as int, ly as int, dx as int, dy as int, t),
            decreases 17 - k,
        {
            let x = if dx == 1 { lx + k } else { lx };
            let y = if dy == 1 { ly + k } else { ly };
            proof {
                if dx == 1 {
                    assert(k * dx == k) by (nonlinear_arith) requires dx == 1;
                } else {
                    assert(k * dx == 0) by (nonlinear_arith) requires dx == 0;
                }
                if dy == 1 {
                    assert(k * dy == k) by (nonlinear_arith) requires dy == 1;
                } else {
                    assert(k * dy == 0) by (nonlinear_arith) requires dy == 0;
                }
            }
            let occ = self.has_pawn_at_exec(p, x, y);
            assert(occ == occ_line(s, n, p as int, lx as int, ly as int, dx as int, dy as int, k as int));
            if occ {
                if run == 3 {
                    proof {
                        let t = k - 3;
                        assert(occ_line(s, n, p as int, lx as int, ly as int, dx as int, dy as int, t + 3));
                        assert(occ_line(s, n, p as int, lx as int, ly as int, dx as int, dy as int, k - 1 - 0));
                        assert(occ_line(s, n, p as int, lx as int, ly as int, dx as int, dy as int, k - 1 - 1));
                        assert(occ_line(s, n, p as int, lx as int, ly as int, dx as int, dy as int, k - 1 - 2));
                        assert(run_of_four(s, n, p as int, lx as int, ly as int, dx as int, dy as int, t));
                    }
                    return true;
                }
                proof {
                    let t = k - 3;
                    if t >= -16 {
                        assert(!occ_line(s, n, p as int, lx as int, ly as int, dx as int, dy as int, k - 1 - run));
                        assert(!run_of_four(s, n, p as int, lx as int, ly as int, dx as int, dy as int, t)) by {
                            let j = (k - 1 - run) - t;
                            assert(0 <= j < 4);
                            assert(t + j == k - 1 - run);
                        }
                    } else {
                        assert(!occ_line(s, n, p as int, lx as int, ly as int, dx as int, dy as int, t + 0));
                    }
                }
                run = run + 1;
            } else {
                proof {
                    let t = k - 3;
                    assert(!run_of_four(s, n, p as int, lx as int, ly as int, dx as int, dy as int, t)) by {
                        assert(t + 3 == k);
                    }
                }
                run = 0;
            }
            k += 1;
        }
        proof {
            assert forall|t: int| !#[trigger] run_of_four(s, n, p as int, lx as int, ly as int, dx as int, dy as int, t) by {
                if t > 13 {
                    assert(!occ_line(s, n, p as int, lx as int, ly as int, dx as int, dy as int, t + 3));
                }
            }
        }
        false
    }

    /// Whether the pawns of parity `p` have four in a row on one of the three
    /// lines through (lx, ly).
    pub fn check_win(&self, lx: i32, ly: i32, p: usize) -> (r: bool)
        requires
            self.wf(),
            p < 2,
            0 <= lx < 16,
            0 <= ly < 16,
        ensures
            r == four_in_a_row(self.poses(), self.n_spec(), p as int, lx as int, ly as int),
    {
        self.scan_line(p, lx, ly, 1, 0) || self.scan_line(p, lx, ly, 0, 1) || self.scan_line(p, lx, ly, 1, 1)
    }

    /// Moves the pawn with index `k` to `dest` (placing it when it was null)
    /// and shifts the first `n_new` pawns to keep them off of the border.
    #[verifier::spinoff_prover]
    #[verifier::rlimit(60)]
    fn relocate(&mut self, k: usize, dest: PackedIdx, n_new: usize)
        requires
            valid_width(N as int),
            old(self).poses().len() == N,
            old(self).move_fits_spec(k as int, dest, n_new as int),
            forall|i: int| n_new <= i < N ==> (#[trigger] old(self).poses()[i]).raw() == 0,
            old(self).com().x == sum_x(old(self).poses(), n_new as int),
            old(self).com().y == sum_y(old(self).poses(), n_new as int),
        ensures
            final(self).st() == old(self).st(),
            moved_spec(old(self).poses(), final(self).poses(), k as int, dest, n_new as int, N as int),
            final(self).com().x == sum_x(final(self).poses(), n_new as int),
            final(self).com().y == sum_y(final(self).poses(), n_new as int),
    {
        let ghost old_poses = self.poses();
        let old_p = self.pawn_poses[k];
        proof {
            lemma_sum_update(old_poses, k as int, dest, n_new as int);
            lemma_sum_bounds(old_poses.update(k as int, dest), n_new as int);
            lemma_sum_bounds(old_poses, n_new as int);
        }
        self.pawn_poses.set(k, dest);
        let ghost pre = self.poses();
        assert(pre == old_poses.update(k as int, dest));
        let sh = Self::calc_move_shift(dest);
        if sh.x != 0 || sh.y != 0 {
            let off = IdxOffset::from_hex_offset(&sh);
            let mut i: usize = 0;
            while i < n_new
                invariant
                    valid_width(N as int),
                    n_new <= N,
                    i <= n_new,
                    self.poses().len() == N,
                    old(self).move_fits_spec(k as int, dest, n_new as int),
                    pre == old_poses.update(k as int, dest),
                    old_poses == old(self).poses(),
                    old_poses.len() == N,
                    pre.len() == N,
                    self.st() == old(self).st(),
                    self.com() == old(self).com(),
                    k < n_new,
                    (sh.x as int, sh.y as int) == shift_spec(dest, N as int),
                    off.raw() == pack_spec(sh.x as int, sh.y as int) % 256,
                    forall|j: int| 0 <= j < i ==> #[trigger] self.poses()[j].sx() == pre[j].sx() + sh.x
                        && self.poses()[j].sy() == pre[j].sy() + sh.y,
                    forall|j: int| i <= j < N ==> #[trigger] self.poses()[j] == pre[j],
                decreases n_new - i,
            {
                let q = self.pawn_poses[i];
                let nq = q + off;
                proof {
                    assert(self.poses()[i as int] == pre[i as int]);
                    assert(q == pre[i as int]);
                    if i == k {
                        assert(q == dest);
                    } else {
                        assert(q == old_poses[i as int]);
                    }
                    lemma_add_offset_coords(q, sh.x as int, sh.y as int, nq.raw());
                }
                self.pawn_poses.set(i, nq);
                i += 1;
            }
        }
        proof {
            assert forall|j: int| 0 <= j < n_new implies #[trigger] self.poses()[j].sx() == pre[j].sx() + sh.x
                && self.poses()[j].sy() == pre[j].sy() + sh.y by {
            }
            assert forall|j: int| n_new <= j < N implies (#[trigger] self.poses()[j]).raw() == 0 by {
                assert(self.poses()[j] == pre[j]);
                assert(pre[j] == old_poses[j]);
            }
            assert forall|j: int| 0 <= j < n_new implies #[trigger] pre[j] == (if j == k { dest } else { old_poses[j] }) by {
            }
            let shs = shift_spec(dest, N as int);
            assert(shs.0 == sh.x && shs.1 == sh.y);
            assert forall|i: int| 0 <= i < n_new implies #[trigger] self.poses()[i].sx() == (if i == k {
                dest.sx()
            } else {
                old(self).poses()[i].sx()
            }) + shs.0 && self.poses()[i].sy() == (if i == k {
                dest.sy()
            } else {
                old(self).poses()[i].sy()
            }) + shs.1 by {
                assert(pre[i] == (if i == k { dest } else { old_poses[i] }));
            }
            assert(self.poses().len() == N);
            let after = self.poses();
            assert(forall|i: int| n_new <= i < N ==> (#[trigger] after[i]).raw() == 0);
            assert(forall|i: int|
            0 <= i < n_new ==> #[trigger] after[i].sx() == (if i == k {
                dest.sx()
            } else {
                old(self).poses()[i].sx()
            }) + shs.0 && after[i].sy() == (if i == k {
                dest.sy()
            } else {
                old(self).poses()[i].sy()
            }) + shs.1);
            lemma_sum_shift(pre, self.poses(), n_new as int, sh.x as int, sh.y as int);
            lemma_sum_bounds(self.poses(), n_new as int);
        }
        proof {
            assert(-16 <= sh.x * (n_new as int) <= 16 && -16 <= sh.y * (n_new as int) <= 16) by (nonlinear_arith)
                requires
                    -1 <= sh.x <= 1,
                    -1 <= sh.y <= 1,
                    n_new <= 16,
            ;
        }
        let cx: i32 = self.sum_of_mass.x as i32 - old_p.x() as i32 + dest.x() as i32 + sh.x * (n_new as i32);
        let cy: i32 = self.sum_of_mass.y as i32 - old_p.y() as i32 + dest.y() as i32 + sh.y * (n_new as i32);
        proof {
            let nn = n_new as int;
            assert(nn * sh.x == sh.x * nn) by (nonlinear_arith);
            assert(nn * sh.y == sh.y * nn) by (nonlinear_arith);
            assert(old_p == old_poses[k as int]);
            assert(sum_x(pre, nn) == sum_x(old_poses, nn) - old_p.sx() + dest.sx());
            assert(sum_y(pre, nn) == sum_y(old_poses, nn) - old_p.sy() + dest.sy());
            assert(sum_x(self.poses(), nn) == sum_x(pre, nn) + nn * sh.x);
            assert(sum_y(self.poses(), nn) == sum_y(pre, nn) + nn * sh.y);
            assert(cx == sum_x(self.poses(), nn));
            assert(cy == sum_y(self.poses(), nn));
        }
        self.sum_of_mass = PackedHexPos::new(cx as u16, cy as u16);
    }

    /// The state with no pawns, before the first pawn is placed.
    pub(crate) fn blank() -> (r: Self)
        requires
            valid_width(N as int),
        ensures
            r.poses().len() == N,
            forall|i: int| 0 <= i < N ==> (#[trigger] r.poses()[i]).raw() == 0,
            r.st().wf(),
            r.st().turn_spec() == 15,
            r.st().black_turn_spec(),
            !r.st().finished_spec(),
            r.com().x == 0,
            r.com().y == 0,
    {
        let mut v: Vec<PackedIdx> = Vec::new();
        let mut i: usize = 0;
        while i < N
            invariant
                i <= N,
                v.len() == i,
                forall|j: int| 0 <= j < i ==> (#[trigger] v[j]).raw() == 0,
            decreases N - i,
        {
            v.push(PackedIdx::null());
            i += 1;
        }
        OnoroImpl { pawn_poses: v, state: OnoroState::new(), sum_of_mass: PackedHexPos::new(0, 0) }
    }

    /// The game with a single black pawn placed at `pos`, shifted off of the
    /// border if needed, or `None` if `pos` is not on the board.
    pub fn with_first_pawn(pos: PackedIdx) -> (r: Option<Self>)
        requires
            valid_width(N as int),
        ensures
            r.is_some() <==> (pos.sx() < N && pos.sy() < N && 1 <= pos.sx() + shift_spec(pos, N as int).0 <= N - 2 && 1 <= pos.sy() + shift_spec(pos, N as int).1 <= N - 2),
            r.is_some() ==> {
                let g = r.unwrap();
                &&& g.wf()
                &&& g.n_spec() == 1
                &&& !g.st().finished_spec()
                &&& g.poses()[0].sx() == pos.sx() + shift_spec(pos, N as int).0
                &&& g.poses()[0].sy() == pos.sy() + shift_spec(pos, N as int).1
            },
    {
        if !(pos.x() < N as u32 && pos.y() < N as u32) {
            return None;
        }
        let sh = Self::calc_move_shift(pos);
        let nx = pos.x() as i32 + sh.x;
        let ny = pos.y() as i32 + sh.y;
        if !(1 <= nx && nx <= N as i32 - 2 && 1 <= ny && ny <= N as i32 - 2) {
            return None;
        }
        let mut g = Self::blank();
        g.state.inc_turn();
        proof {
            assert(g.poses()[0].raw() == 0);
            assert(sum_x(g.poses(), 0) == 0);
            assert(sum_y(g.poses(), 0) == 0);
            assert(g.com().x == sum_x(g.poses(), 1));
            assert(g.com().y == sum_y(g.poses(), 1));
        }
        g.relocate(0, pos, 1);
        proof {
            assert(g.n_spec() == 1);
            assert(interior(g.poses()[0], N as int));
        }
        Some(g)
    }

    /// Makes the move `m`, which must be legal in the sense of
    /// `can_make_move`. The pawn lands on its tile, every pawn is shifted off
    /// of the border if needed, and the turn passes to the other player. The
    /// game becomes finished if the player who moved now has four pawns in a
    /// row on a line through the tile the pawn landed on; a finished game
    /// stays finished.
    #[verifier::rlimit(50)]
    #[verifier::spinoff_prover]
    pub fn make_move_unchecked(&mut self, m: Move)
        requires
            old(self).wf(),
            old(self).can_make_move(m),
        ensures
            final(self).wf(),
            ({
                let (k, to, n_new) = match m {
                    Move::Phase1Move { to } => (old(self).n_spec(), to, old(self).n_spec() + 1),
                    Move::Phase2Move { to, from_idx } => (from_idx as int, to, old(self).n_spec()),
                };
                &&& final(self).n_spec() == n_new
                &&& moved_spec(old(self).poses(), final(self).poses(), k, to, n_new, N as int)
                &&& final(self).st().black_turn_spec() == !old(self).st().black_turn_spec()
                &&& final(self).st().finished_spec() == (old(self).st().finished_spec() || four_in_a_row(
                    final(self).poses(),
                    n_new,
                    if old(self).st().black_turn_spec() { 0 } else { 1 },
                    final(self).poses()[k].sx(),
                    final(self).poses()[k].sy(),
                ))
            }),
    {
        let ghost old_self = *self;
        let n = self.pawns_in_play() as usize;
        let (k, to, n_new) = match m {
            Move::Phase1Move { to } => (n, to, n + 1),
            Move::Phase2Move { to, from_idx } => (from_idx as usize, to, n),
        };
        let was_black = self.state.black_turn();
        match m {
            Move::Phase1Move { .. } => {
                self.state.inc_turn();
            },
            Move::Phase2Move { .. } => {
                self.state.swap_player_turn();
            },
        }
        proof {
            if n_new == n + 1 {
                assert(old_self.poses()[n as int].raw() == 0);
                assert(sum_x(old_self.poses(), n_new as int) == sum_x(old_self.poses(), n as int) + old_self.poses()[n as int].sx());
                assert(sum_y(old_self.poses(), n_new as int) == sum_y(old_self.poses(), n as int) + old_self.poses()[n as int].sy());
            }
        }
        self.relocate(k, to, n_new);
        proof {
            let s = self.poses();
            let sh = shift_spec(to, N as int);
            assert(self.n_spec() == n_new);
            assert forall|i: int| 0 <= i < self.n_spec() implies interior(#[trigger] s[i], N as int) by {
                if i != k {
                    assert(1 <= old_self.poses()[i].sx() + sh.0 <= N - 2);
                    assert(1 <= old_self.poses()[i].sy() + sh.1 <= N - 2);
                }
            }
            assert forall|i: int, j: int| 0 <= i < j < self.n_spec() implies #[trigger] s[i] != #[trigger] s[j] by {
                if i != k && j != k {
                    old_self.poses()[i].lemma_coords_eq(old_self.poses()[j]);
                }
                s[i].lemma_coords_eq(s[j]);
            }
        }
        let last = self.pawn_poses[k];
        let p: usize = if was_black { 0 } else { 1 };
        let win = self.check_win(last.x() as i32, last.y() as i32, p);
        if win && !self.state.finished() {
            self.state.set_finished(true);
        }
    }

    /// Makes the move `m` in a game which is not finished; see
    /// `make_move_unchecked`.
    pub fn make_move(&mut self, m: Move)
        requires
            old(self).wf(),
            !old(self).st().finished_spec(),
            old(self).can_make_move(m),
        ensures
            final(self).wf(),
            ({
                let (k, to, n_new) = match m {
                    Move::Phase1Move { to } => (old(self).n_spec(), to, old(self).n_spec() + 1),
                    Move::Phase2Move { to, from_idx } => (from_idx as int, to, old(self).n_spec()),
                };
                &&& final(self).n_spec() == n_new
                &&& moved_spec(old(self).poses(), final(self).poses(), k, to, n_new, N as int)
                &&& final(self).st().black_turn_spec() == !old(self).st().black_turn_spec()
                &&& final(self).st().finished_spec() == four_in_a_row(
                    final(self).poses(),
                    n_new,
                    if old(self).st().black_turn_spec() { 0 } else { 1 },
                    final(self).poses()[k].sx(),
                    final(self).poses()[k].sy(),
                )
            }),
    {
        self.make_move_unchecked(m);
    }

    /// A copy of this game.
    pub fn copy(&self) -> (r: Self)
        ensures
            r.poses() == self.poses(),
            r.st() == self.st(),
            r.com() == self.com(),
    {
        let mut v: Vec<PackedIdx> = Vec::new();
        let mut i: usize = 0;
        while i < self.pawn_poses.len()
            invariant
                i <= self.pawn_poses.len(),
                v.len() == i,
                forall|j: int| 0 <= j < i ==> v[j] == self.pawn_poses[j],
            decreases self.pawn_poses.len() - i,
        {
            v.push(self.pawn_poses[i]);
            i += 1;
        }
        assert(v@ == self.pawn_poses@);
        OnoroImpl { pawn_poses: v, state: self.state, sum_of_mass: self.sum_of_mass }
    }
}

} // verus!
