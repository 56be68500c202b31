use vstd::prelude::*;

use crate::color_print::{colored_text, Color, ColorAttrs, Colored};
use crate::hex_pos::HexPosOffset;
use crate::onoro::{Move, TileState};
use crate::onoro_impl::{moved_spec, shift_spec, tile_at, OnoroImpl};
use crate::packed_idx::PackedIdx;

verus! {

broadcast use {PackedIdx::lemma_raw, PackedIdx::lemma_at};

// ---------------------------------------------------------------------------
// Printing cells on a hexagonal grid: row `y` is indented by one space more
// than the row above it, so that the tiles of neighboring rows interleave.
// ---------------------------------------------------------------------------

/// `k` spaces.
pub open spec fn spaces(k: int) -> Seq<char> {
    Seq::new(k as nat, |i: int| ' ')
}

/// The cells `(x, y)` of row `y` for `x` in `lo..x_end`, each followed by a
/// space when `x < sep_end`.
pub open spec fn grid_cells(
    cell: spec_fn(int, int) -> Seq<char>,
    lo: int,
    x_end: int,
    sep_end: int,
    y: int,
) -> Seq<char>
    decreases x_end - lo,
{
    if x_end <= lo {
        Seq::empty()
    } else {
        grid_cells(cell, lo, x_end - 1, sep_end, y) + cell(x_end - 1, y) + if x_end - 1 < sep_end {
            seq![' ']
        } else {
            Seq::<char>::empty()
        }
    }
}

/// The first `t` rows of the grid of columns `lo_x..=hi_x` and rows
/// `lo_y..=hi_y`, from the top row `hi_y` down: row `y` is indented by
/// `hi_y - y` spaces and every row but the bottom one ends in a newline.
pub open spec fn grid_rows(
    cell: spec_fn(int, int) -> Seq<char>,
    lo_x: int,
    hi_x: int,
    lo_y: int,
    hi_y: int,
    sep_end: int,
    t: int,
) -> Seq<char>
    decreases t,
{
    if t <= 0 {
        Seq::empty()
    } else {
        let y = hi_y - (t - 1);
        grid_rows(cell, lo_x, hi_x, lo_y, hi_y, sep_end, t - 1) + spaces(hi_y - y) + grid_cells(
            cell,
            lo_x,
            hi_x + 1,
            sep_end,
            y,
        ) + if y > lo_y {
            seq!['\n']
        } else {
            Seq::<char>::empty()
        }
    }
}

/// The whole grid of columns `lo_x..=hi_x` and rows `lo_y..=hi_y`.
pub open spec fn grid_text(
    cell: spec_fn(int, int) -> Seq<char>,
    lo_x: int,
    hi_x: int,
    lo_y: int,
    hi_y: int,
    sep_end: int,
) -> Seq<char> {
    grid_rows(cell, lo_x, hi_x, lo_y, hi_y, sep_end, hi_y - lo_y + 1)
}

/// `String::from_iter` over characters.
#[verifier::external_body]
pub(crate) fn chars_to_string(chars: &Vec<char>) -> (r: String)
    ensures
        r@ == chars@,
{
    String::from_iter(chars.iter())
}

// ---------------------------------------------------------------------------
// Printing pieces at arbitrary positions.
// ---------------------------------------------------------------------------

/// No two pieces are at the same position.
pub open spec fn distinct_positions(p: Seq<(HexPosOffset, char)>) -> bool {
    forall|i: int, j: int| 0 <= i < j < p.len() ==> #[trigger] p[i].0 != #[trigger] p[j].0
}

/// The piece at (x, y), if there is one.
pub open spec fn piece_at(p: Seq<(HexPosOffset, char)>, x: int, y: int) -> Option<char> {
    if exists|i: int| 0 <= i < p.len() && #[trigger] p[i].0.x == x && p[i].0.y == y {
        let i = choose|i: int| 0 <= i < p.len() && #[trigger] p[i].0.x == x && p[i].0.y == y;
        Some(p[i].1)
    } else {
        None
    }
}

/// The smallest x- (or, with `use_y`, y-) coordinate of the first `k`
/// pieces, and `init` where it is smaller.
pub open spec fn pieces_min(p: Seq<(HexPosOffset, char)>, k: int, init: int, use_y: bool) -> int
    decreases k,
{
    if k <= 0 {
        init
    } else {
        let prev = pieces_min(p, k - 1, init, use_y);
        let c: int = if use_y {
            p[k - 1].0.y as int
        } else {
            p[k - 1].0.x as int
        };
        if c < prev {
            c
        } else {
            prev
        }
    }
}

/// The largest x- (or, with `use_y`, y-) coordinate of the first `k`
/// pieces, and `init` where it is larger.
pub open spec fn pieces_max(p: Seq<(HexPosOffset, char)>, k: int, init: int, use_y: bool) -> int
    decreases k,
{
    if k <= 0 {
        init
    } else {
        let prev = pieces_max(p, k - 1, init, use_y);
        let c: int = if use_y {
            p[k - 1].0.y as int
        } else {
            p[k - 1].0.x as int
        };
        if c > prev {
            c
        } else {
            prev
        }
    }
}

/// The character of each cell: the piece on it, or '.' where there is none.
pub open spec fn piece_cells(p: Seq<(HexPosOffset, char)>) -> spec_fn(int, int) -> Seq<char> {
    |x: int, y: int|
        seq![
            match piece_at(p, x, y) {
                Some(c) => c,
                None => '.',
            },
        ]
}

/// The pieces drawn on a hexagonal grid which spans them with a margin of
/// one tile on every side. The coordinates of the box start from `i64::MAX`
/// for the least ones and from 0 for the greatest.
pub open spec fn hex_grid_text(p: Seq<(HexPosOffset, char)>) -> Seq<char> {
    let lo_x = pieces_min(p, p.len() as int, i64::MAX as int, false) - 1;
    let lo_y = pieces_min(p, p.len() as int, i64::MAX as int, true) - 1;
    let hi_x = pieces_max(p, p.len() as int, 0, false) + 1;
    let hi_y = pieces_max(p, p.len() as int, 0, true) + 1;
    grid_text(piece_cells(p), lo_x, hi_x, lo_y, hi_y, hi_x)
}

/// The least coordinate of some pieces is at most their greatest one.
proof fn lemma_pieces_min_max(p: Seq<(HexPosOffset, char)>, k: int, lo: int, hi: int, use_y: bool)
    requires
        0 < k <= p.len(),
    ensures
        pieces_min(p, k, lo, use_y) <= pieces_max(p, k, hi, use_y),
    decreases k,
{
    if k > 1 {
        lemma_pieces_min_max(p, k - 1, lo, hi, use_y);
    }
    reveal_with_fuel(pieces_min, 2);
    reveal_with_fuel(pieces_max, 2);
}

proof fn lemma_pieces_bounds(p: Seq<(HexPosOffset, char)>, k: int, init: int, use_y: bool)
    requires
        0 <= k <= p.len(),
        i32::MIN <= init <= i64::MAX,
    ensures
        i32::MIN <= pieces_min(p, k, init, use_y) <= init,
        i32::MIN <= pieces_max(p, k, init, use_y),
        pieces_max(p, k, init, use_y) <= if init > i32::MAX {
            init
        } else {
            i32::MAX as int
        },
    decreases k,
{
    if k > 0 {
        lemma_pieces_bounds(p, k - 1, init, use_y);
    }
}

/// The piece at (x, y), if there is one.
fn find_piece(pieces: &Vec<(HexPosOffset, char)>, x: i64, y: i64) -> (r: Option<char>)
    requires
        distinct_positions(pieces@),
    ensures
        r == piece_at(pieces@, x as int, y as int),
{
    let mut i: usize = 0;
    while i < pieces.len()
        invariant
            i <= pieces.len(),
            distinct_positions(pieces@),
            forall|j: int|
                0 <= j < i ==> !(#[trigger] pieces@[j].0.x == x && pieces@[j].0.y == y),
        decreases pieces.len() - i,
    {
        let (pos, c) = pieces[i];
        if pos.x as i64 == x && pos.y as i64 == y {
            proof {
                let p = pieces@;
                let k = choose|k: int| 0 <= k < p.len() && #[trigger] p[k].0.x == x && p[k].0.y == y;
                if k < i {
                    assert(p[k].0 != p[i as int].0);
                } else if k > i {
                    assert(p[i as int].0 != p[k].0);
                }
            }
            return Some(c);
        }
        i += 1;
    }
    None
}

/// Draws `pieces` on a hexagonal grid: each row is indented by one more space
/// than the row above it, tiles without a piece are drawn as '.', and a
/// margin of one tile surrounds the pieces.
pub fn display_on_hexagonal_grid(pieces: Vec<(HexPosOffset, char)>) -> (r: String)
    requires
        distinct_positions(pieces@),
    ensures
        r@ == hex_grid_text(pieces@),
{
    let ghost p = pieces@;
    let mut min_x: i64 = i64::MAX;
    let mut min_y: i64 = i64::MAX;
    let mut max_x: i64 = 0;
    let mut max_y: i64 = 0;
    let mut i: usize = 0;
    while i < pieces.len()
        invariant
            p == pieces@,
            i <= pieces.len(),
            min_x == pieces_min(p, i as int, i64::MAX as int, false),
            min_y == pieces_min(p, i as int, i64::MAX as int, true),
            max_x == pieces_max(p, i as int, 0, false),
            max_y == pieces_max(p, i as int, 0, true),
        decreases pieces.len() - i,
    {
        proof {
            lemma_pieces_bounds(p, i as int, i64::MAX as int, false);
            lemma_pieces_bounds(p, i as int, i64::MAX as int, true);
            lemma_pieces_bounds(p, i as int, 0, false);
            lemma_pieces_bounds(p, i as int, 0, true);
        }
        let pos = pieces[i].0;
        if (pos.x as i64) < min_x {
            min_x = pos.x as i64;
        }
        if (pos.y as i64) < min_y {
            min_y = pos.y as i64;
        }
        if (pos.x as i64) > max_x {
            max_x = pos.x as i64;
        }
        if (pos.y as i64) > max_y {
            max_y = pos.y as i64;
        }
        i += 1;
    }
    proof {
        lemma_pieces_bounds(p, p.len() as int, i64::MAX as int, false);
        lemma_pieces_bounds(p, p.len() as int, i64::MAX as int, true);
        lemma_pieces_bounds(p, p.len() as int, 0, false);
        lemma_pieces_bounds(p, p.len() as int, 0, true);
    }
    proof {
        if p.len() > 0 {
            lemma_pieces_min_max(p, p.len() as int, i64::MAX as int, 0, false);
            lemma_pieces_min_max(p, p.len() as int, i64::MAX as int, 0, true);
        }
    }
    let lo_x = min_x - 1;
    let lo_y = min_y - 1;
    let hi_x = max_x + 1;
    let hi_y = max_y + 1;
    let ghost cell = piece_cells(p);
    let mut res: Vec<char> = Vec::new();
    let mut y: i64 = hi_y;
    while y >= lo_y
        invariant
            p == pieces@,
            distinct_positions(p),
            cell == piece_cells(p),
            i32::MIN - 1 <= lo_x,
            hi_x <= i32::MAX + 1,
            i32::MIN - 1 <= lo_y,
            hi_y <= i32::MAX + 1,
            y <= hi_y,
            lo_y <= hi_y ==> lo_y - 1 <= y,
            lo_y > hi_y ==> y == hi_y,
            lo_y <= hi_y ==> lo_x <= hi_x,
            res@ == grid_rows(cell, lo_x as int, hi_x as int, lo_y as int, hi_y as int, hi_x as int, hi_y - y),
        decreases y - lo_y + 1,
    {
        let ghost row_start = res@;
        let mut j: i64 = 0;
        while j < hi_y - y
            invariant
                i32::MIN - 1 <= lo_y <= y <= hi_y,
                hi_y <= i32::MAX + 1,
                0 <= j <= hi_y - y,
                res@ == row_start + spaces(j as int),
            decreases hi_y - y - j,
        {
            res.push(' ');
            assert(spaces(j + 1) =~= spaces(j as int).push(' '));
            j += 1;
        }
        let ghost indent = res@;
        let mut x: i64 = lo_x;
        while x <= hi_x
            invariant
                p == pieces@,
                distinct_positions(p),
                cell == piece_cells(p),
                i32::MIN - 1 <= lo_x,
                hi_x <= i32::MAX + 1,
                lo_x <= x <= hi_x + 1,
                res@ == indent + grid_cells(cell, lo_x as int, x as int, hi_x as int, y as int),
            decreases hi_x + 1 - x,
        {
            let c = match find_piece(&pieces, x, y) {
                Some(c) => c,
                None => '.',
            };
            res.push(c);
            if x < hi_x {
                res.push(' ');
            }
            proof {
                let g = grid_cells(cell, lo_x as int, x + 1, hi_x as int, y as int);
                assert(g == grid_cells(cell, lo_x as int, x as int, hi_x as int, y as int) + cell(
                    x as int,
                    y as int,
                ) + if x < hi_x {
                    seq![' ']
                } else {
                    Seq::<char>::empty()
                });
                assert(res@ =~= indent + g);
            }
            x += 1;
        }
        if y > lo_y {
            res.push('\n');
        }
        proof {
            let t = hi_y - y;
            assert(grid_rows(cell, lo_x as int, hi_x as int, lo_y as int, hi_y as int, hi_x as int, t + 1)
                == grid_rows(cell, lo_x as int, hi_x as int, lo_y as int, hi_y as int, hi_x as int, t)
                + spaces(hi_y - y) + grid_cells(cell, lo_x as int, hi_x + 1, hi_x as int, y as int)
                + if y > lo_y {
                seq!['\n']
            } else {
                Seq::<char>::empty()
            });
            assert(res@ =~= grid_rows(
                cell,
                lo_x as int,
                hi_x as int,
                lo_y as int,
                hi_y as int,
                hi_x as int,
                t + 1,
            ));
        }
        y -= 1;
    }
    assert(res@ == grid_text(cell, lo_x as int, hi_x as int, lo_y as int, hi_y as int, hi_x as int));
    chars_to_string(&res)
}

// ---------------------------------------------------------------------------
// Printing a game board with a move highlighted.
// ---------------------------------------------------------------------------

/// Text attributes with neither the light variant of the color nor bold.
pub open spec fn plain() -> ColorAttrs {
    ColorAttrs { light: false, bold: false }
}

/// The pawn placed `k`-th is among the first `n` pawns of `s`, on (x, y).
pub open spec fn pawn_k_at(s: Seq<PackedIdx>, n: int, k: int, x: int, y: int) -> bool {
    0 <= k < n && s[k].sx() == x && s[k].sy() == y
}

/// The tile (x, y) of the board of the first `n1` pawns of `s1`, which the
/// pawn placed `k`-th reached from the board of the first `n0` pawns of `s0`:
/// 'B' or 'W' for a pawn, magenta for the pawn that moved, and '.' for an
/// empty tile, red where the pawn that moved left it.
pub open spec fn move_cell(
    s0: Seq<PackedIdx>,
    n0: int,
    s1: Seq<PackedIdx>,
    n1: int,
    k: int,
    x: int,
    y: int,
) -> Seq<char> {
    match tile_at(s1, n1, x, y) {
        TileState::Black => if pawn_k_at(s1, n1, k, x, y) {
            colored_text(seq!['B'], Color::Magenta, plain())
        } else {
            seq!['B']
        },
        TileState::White => if pawn_k_at(s1, n1, k, x, y) {
            colored_text(seq!['W'], Color::Magenta, plain())
        } else {
            seq!['W']
        },
        TileState::Empty => if pawn_k_at(s0, n0, k, x, y) {
            colored_text(seq!['.'], Color::Red, plain())
        } else {
            seq!['.']
        },
    }
}

pub open spec fn move_cells(
    s0: Seq<PackedIdx>,
    n0: int,
    s1: Seq<PackedIdx>,
    n1: int,
    k: int,
) -> spec_fn(int, int) -> Seq<char> {
    |x: int, y: int| move_cell(s0, n0, s1, n1, k, x, y)
}

/// The least x- (or, with `use_y`, y-) coordinate of the first `k` pawns
/// of `s`, and `init` where it is smaller.
pub open spec fn poses_min(s: Seq<PackedIdx>, k: int, init: int, use_y: bool) -> int
    decreases k,
{
    if k <= 0 {
        init
    } else {
        let prev = poses_min(s, k - 1, init, use_y);
        let c = if use_y {
            s[k - 1].sy()
        } else {
            s[k - 1].sx()
        };
        if c < prev {
            c
        } else {
            prev
        }
    }
}

/// The greatest x- (or, with `use_y`, y-) coordinate of the first `k` pawns
/// of `s`, and `init` where it is greater.
pub open spec fn poses_max(s: Seq<PackedIdx>, k: int, init: int, use_y: bool) -> int
    decreases k,
{
    if k <= 0 {
        init
    } else {
        let prev = poses_max(s, k - 1, init, use_y);
        let c = if use_y {
            s[k - 1].sy()
        } else {
            s[k - 1].sx()
        };
        if c > prev {
            c
        } else {
            prev
        }
    }
}

/// The board after the move, on a `w x w` board, printed over the box that
/// spans its pawns with a margin of one tile, cut to the board.
pub open spec fn move_text(
    s0: Seq<PackedIdx>,
    n0: int,
    s1: Seq<PackedIdx>,
    n1: int,
    k: int,
    w: int,
) -> Seq<char> {
    let min_x = poses_min(s1, n1, w, false);
    let min_y = poses_min(s1, n1, w, true);
    let max_x = poses_max(s1, n1, 0, false);
    let max_y = poses_max(s1, n1, 0, true);
    let lo_x = if min_x >= 1 {
        min_x - 1
    } else {
        0
    };
    let lo_y = if min_y >= 1 {
        min_y - 1
    } else {
        0
    };
    let hi_x = if max_x + 1 <= w - 1 {
        max_x + 1
    } else {
        w - 1
    };
    let hi_y = if max_y + 1 <= w - 1 {
        max_y + 1
    } else {
        w - 1
    };
    grid_text(move_cells(s0, n0, s1, n1, k), lo_x, hi_x, lo_y, hi_y, w - 1)
}

/// The index of the pawn that the move `m` places or moves.
pub open spec fn moved_pawn<const N: usize>(o: OnoroImpl<N>, m: Move) -> int {
    match m {
        Move::Phase1Move { to: _ } => o.n_spec(),
        Move::Phase2Move { to: _, from_idx } => from_idx as int,
    }
}

/// The number of pawns after the move `m`.
pub open spec fn pawns_after<const N: usize>(o: OnoroImpl<N>, m: Move) -> int {
    match m {
        Move::Phase1Move { to: _ } => o.n_spec() + 1,
        Move::Phase2Move { to: _, from_idx: _ } => o.n_spec(),
    }
}

/// The tile that the move `m` moves a pawn to.
pub open spec fn move_dest(m: Move) -> PackedIdx {
    match m {
        Move::Phase1Move { to } => to,
        Move::Phase2Move { to, from_idx: _ } => to,
    }
}

/// The positions of the pawns after the move `m`, every pawn shifted to stay
/// off of the border.
pub open spec fn poses_after<const N: usize>(o: OnoroImpl<N>, m: Move) -> Seq<PackedIdx> {
    let k = moved_pawn(o, m);
    let to = move_dest(m);
    let sh = shift_spec(to, N as int);
    Seq::new(
        N as nat,
        |i: int|
            if i < pawns_after(o, m) {
                PackedIdx::at(
                    (if i == k {
                        to.sx()
                    } else {
                        o.poses()[i].sx()
                    }) + sh.0,
                    (if i == k {
                        to.sy()
                    } else {
                        o.poses()[i].sy()
                    }) + sh.1,
                )
            } else {
                PackedIdx::at(0, 0)
            },
    )
}

/// A board that `moved_spec` describes is the board `poses_after` builds.
proof fn lemma_poses_after<const N: usize>(o: OnoroImpl<N>, m: Move, after: Seq<PackedIdx>)
    requires
        N <= 16,
        moved_spec(
            o.poses(),
            after,
            moved_pawn(o, m),
            move_dest(m),
            pawns_after(o, m),
            N as int,
        ),
    ensures
        after == poses_after(o, m),
{
    let pa = poses_after(o, m);
    assert forall|i: int| 0 <= i < N implies after[i] == pa[i] by {
        if i < pawns_after(o, m) {
            let (ex, ey) = (after[i].sx(), after[i].sy());
            assert(pa[i] == PackedIdx::at(ex, ey));
            PackedIdx::lemma_at(ex, ey);
            after[i].lemma_coords_eq(pa[i]);
        } else {
            assert(after[i].raw() == 0);
            PackedIdx::lemma_at(0, 0);
            after[i].lemma_coords_eq(pa[i]);
        }
    }
    assert(after =~= pa);
}

proof fn lemma_poses_min_max(s: Seq<PackedIdx>, k: int, lo: int, hi: int, use_y: bool)
    requires
        0 <= k <= s.len(),
    ensures
        0 <= poses_min(s, k, lo, use_y) || poses_min(s, k, lo, use_y) == lo,
        poses_min(s, k, lo, use_y) <= lo,
        poses_max(s, k, hi, use_y) >= hi,
        poses_max(s, k, hi, use_y) < 16 || poses_max(s, k, hi, use_y) == hi,
        k > 0 ==> poses_min(s, k, lo, use_y) <= poses_max(s, k, hi, use_y),
    decreases k,
{
    if k > 0 {
        lemma_poses_min_max(s, k - 1, lo, hi, use_y);
        reveal_with_fuel(poses_min, 2);
        reveal_with_fuel(poses_max, 2);
    }
}

impl<const N: usize> OnoroImpl<N> {
    /// Whether the pawn placed `k`-th is on `pos`.
    fn pawn_idx_is(&self, pos: PackedIdx, k: u32) -> (r: bool)
        requires
            self.wf(),
        ensures
            r == pawn_k_at(self.poses(), self.n_spec(), k as int, pos.sx(), pos.sy()),
    {
        let found = self.get_pawn_idx_slow(pos);
        proof {
            let s = self.poses();
            if 0 <= k < self.n_spec() {
                s[k as int].lemma_coords_eq(pos);
            }
            if let Some(j) = found {
                if j != k && k < self.n_spec() && s[k as int] == pos {
                    assert(s[if j < k { j as int } else { k as int }] != s[if j < k {
                        k as int
                    } else {
                        j as int
                    }]);
                }
            }
        }
        match found {
            Some(j) => j == k,
            None => false,
        }
    }

    /// Appends the cell (x, y) of the board `g` that the pawn placed
    /// `k`-th reached from this board.
    fn write_move_cell(&self, g: &Self, k: u32, x: u32, y: u32, res: &mut Vec<char>)
        requires
            self.wf(),
            g.wf(),
            x < 16,
            y < 16,
        ensures
            final(res)@ == old(res)@ + move_cell(
                self.poses(),
                self.n_spec(),
                g.poses(),
                g.n_spec(),
                k as int,
                x as int,
                y as int,
            ),
    {
        let pos = PackedIdx::new(x, y);
        match g.get_tile(pos) {
            TileState::Black => {
                if g.pawn_idx_is(pos, k) {
                    Colored::new('B', Color::Magenta).write_to(res);
                } else {
                    res.push('B');
                }
            },
            TileState::White => {
                if g.pawn_idx_is(pos, k) {
                    Colored::new('W', Color::Magenta).write_to(res);
                } else {
                    res.push('W');
                }
            },
            TileState::Empty => {
                if self.pawn_idx_is(pos, k) {
                    Colored::new('.', Color::Red).write_to(res);
                } else {
                    res.push('.');
                }
            },
        }
    }

    /// The board after the move `m`, printed on a hexagonal grid over the
    /// box that spans its pawns with a margin of one tile, cut to the board:
    /// 'B' and 'W' for pawns, the one that moved in magenta, and '.' for
    /// empty tiles, the one it left in red.
    pub fn print_with_move(&self, m: Move) -> (r: String)
        requires
            self.wf(),
            !self.st().finished_spec(),
            self.can_make_move(m),
        ensures
            r@ == move_text(
                self.poses(),
                self.n_spec(),
                poses_after(*self, m),
                pawns_after(*self, m),
                moved_pawn(*self, m),
                N as int,
            ),
    {
        let mut g = self.copy();
        assert(g.wf());
        g.make_move(m);
        proof {
            lemma_poses_after(*self, m, g.poses());
        }
        let pawn_idx: u32 = match m {
            Move::Phase1Move { to: _ } => self.pawns_in_play(),
            Move::Phase2Move { to: _, from_idx } => from_idx,
        };
        let ghost s0 = self.poses();
        let ghost n0 = self.n_spec();
        let ghost s1 = g.poses();
        let ghost n1 = g.n_spec();
        let ghost w = N as int;
        let ghost cell = move_cells(s0, n0, s1, n1, pawn_idx as int);
        let gn = g.pawns_in_play() as usize;
        let gp = g.pawn_poses();
        let mut min_x: usize = N;
        let mut min_y: usize = N;
        let mut max_x: usize = 0;
        let mut max_y: usize = 0;
        let mut i: usize = 0;
        while i < gn
            invariant
                g.wf(),
                gn == n1,
                n1 == g.n_spec(),
                gp@ == s1,
                s1 == g.poses(),
                i <= gn,
                min_x == poses_min(s1, i as int, N as int, false),
                min_y == poses_min(s1, i as int, N as int, true),
                max_x == poses_max(s1, i as int, 0, false),
                max_y == poses_max(s1, i as int, 0, true),
            decreases gn - i,
        {
            let p = gp[i];
            if (p.x() as usize) < min_x {
                min_x = p.x() as usize;
            }
            if (p.y() as usize) < min_y {
                min_y = p.y() as usize;
            }
            if (p.x() as usize) > max_x {
                max_x = p.x() as usize;
            }
            if (p.y() as usize) > max_y {
                max_y = p.y() as usize;
            }
            i += 1;
        }
        proof {
            lemma_poses_min_max(s1, n1, w, 0, false);
            lemma_poses_min_max(s1, n1, w, 0, true);
        }
        let lo_x = if min_x >= 1 {
            min_x - 1
        } else {
            0
        };
        let lo_y = if min_y >= 1 {
            min_y - 1
        } else {
            0
        };
        let hi_x = if max_x + 1 <= N - 1 {
            max_x + 1
        } else {
            N - 1
        };
        let hi_y = if max_y + 1 <= N - 1 {
            max_y + 1
        } else {
            N - 1
        };
        let mut res: Vec<char> = Vec::new();
        let rows = hi_y - lo_y + 1;
        let mut t: usize = 0;
        while t < rows
            invariant
                self.wf(),
                g.wf(),
                s0 == self.poses(),
                n0 == self.n_spec(),
                s1 == g.poses(),
                n1 == g.n_spec(),
                w == N,
                N <= 16,
                cell == move_cells(s0, n0, s1, n1, pawn_idx as int),
                lo_x <= hi_x < N,
                lo_y <= hi_y < N,
                rows == hi_y - lo_y + 1,
                t <= rows,
                res@ == grid_rows(cell, lo_x as int, hi_x as int, lo_y as int, hi_y as int, w - 1, t as int),
            decreases rows - t,
        {
            let y = hi_y - t;
            let ghost row_start = res@;
            let mut j: usize = 0;
            while j < hi_y - y
                invariant
                    y <= hi_y,
                    j <= hi_y - y,
                    res@ == row_start + spaces(j as int),
                decreases hi_y - y - j,
            {
                res.push(' ');
                assert(spaces(j + 1) =~= spaces(j as int).push(' '));
                j += 1;
            }
            let ghost indent = res@;
            let mut x: usize = lo_x;
            while x <= hi_x
                invariant
                    self.wf(),
                    g.wf(),
                    s0 == self.poses(),
                    n0 == self.n_spec(),
                    s1 == g.poses(),
                    n1 == g.n_spec(),
                    w == N,
                    N <= 16,
                    cell == move_cells(s0, n0, s1, n1, pawn_idx as int),
                    lo_x <= x <= hi_x + 1,
                    hi_x < N,
                    y < N,
                    res@ == indent + grid_cells(cell, lo_x as int, x as int, w - 1, y as int),
                decreases hi_x + 1 - x,
            {
                let ghost before = res@;
                self.write_move_cell(&g, pawn_idx, x as u32, y as u32, &mut res);
                assert(res@ == before + cell(x as int, y as int));
                if x < N - 1 {
                    res.push(' ');
                }
                proof {
                    let gc = grid_cells(cell, lo_x as int, x + 1, w - 1, y as int);
                    assert(gc == grid_cells(cell, lo_x as int, x as int, w - 1, y as int) + cell(
                        x as int,
                        y as int,
                    ) + if x < w - 1 {
                        seq![' ']
                    } else {
                        Seq::<char>::empty()
                    });
                    assert(res@ =~= indent + gc);
                }
                x += 1;
            }
            if y > lo_y {
                res.push('\n');
            }
            proof {
                let ti = t as int;
                assert(grid_rows(cell, lo_x as int, hi_x as int, lo_y as int, hi_y as int, w - 1, ti + 1)
                    == grid_rows(cell, lo_x as int, hi_x as int, lo_y as int, hi_y as int, w - 1, ti)
                    + spaces(hi_y - y) + grid_cells(cell, lo_x as int, hi_x + 1, w - 1, y as int)
                    + if y > lo_y {
                    seq!['\n']
                } else {
                    Seq::<char>::empty()
                });
                assert(res@ =~= grid_rows(
                    cell,
                    lo_x as int,
                    hi_x as int,
                    lo_y as int,
                    hi_y as int,
                    w - 1,
                    ti + 1,
                ));
            }
            t += 1;
        }
        chars_to_string(&res)
    }
}

} // verus!
