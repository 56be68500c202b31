use vstd::prelude::*;

use crate::error::OnoroError;
use crate::hex_pos::HexPosOffset;
use crate::onoro::{Move, PawnColor, TileState};
use crate::onoro_impl::{interior, moved_spec, shift_spec, valid_width, OnoroImpl};
use crate::packed_idx::PackedIdx;

verus! {

broadcast use PackedIdx::lemma_raw;

/// The elements of `a` and `b` alternately, starting with `a`; once one runs
/// out, the rest of the other.
pub open spec fn interleave_spec<T>(a: Seq<T>, b: Seq<T>) -> Seq<T>
    decreases a.len() + b.len(),
{
    if a.len() == 0 {
        b
    } else {
        seq![a[0]] + interleave_spec(b, a.drop_first())
    }
}

/// Interleaving sequences of equal length, or with `a` one longer, alternates
/// strictly between them.
pub proof fn lemma_interleave_index<T>(a: Seq<T>, b: Seq<T>)
    requires
        a.len() == b.len() || a.len() == b.len() + 1,
    ensures
        interleave_spec(a, b).len() == a.len() + b.len(),
        forall|j: int|
            0 <= j < a.len() + b.len() ==> #[trigger] interleave_spec(a, b)[j] == if j % 2 == 0 {
                a[j / 2]
            } else {
                b[j / 2]
            },
    decreases a.len() + b.len(),
{
    if a.len() > 0 {
        lemma_interleave_index(b, a.drop_first());
        let r = interleave_spec(a, b);
        let t = interleave_spec(b, a.drop_first());
        assert(r == seq![a[0]] + t);
        assert forall|j: int| 0 <= j < a.len() + b.len() implies #[trigger] r[j] == if j % 2
            == 0 {
            a[j / 2]
        } else {
            b[j / 2]
        } by {
            if j > 0 {
                assert(r[j] == t[j - 1]);
                if j % 2 == 0 {
                    assert((j - 1) % 2 == 1);
                    assert((j - 1) / 2 == j / 2 - 1);
                } else {
                    assert((j - 1) % 2 == 0);
                    assert((j - 1) / 2 == j / 2);
                }
            }
        }
    }
}

/// Interleaves two lists of positions with `itertools::interleave`.
#[verifier::external_body]
fn interleave_positions(a: Vec<PackedIdx>, b: Vec<PackedIdx>) -> (r: Vec<PackedIdx>)
    ensures
        r@ == interleave_spec(a@, b@),
{
    itertools::interleave(a, b).collect()
}

/// The pairs are distinct.
pub open spec fn distinct_pairs(s: Seq<(int, int)>) -> bool {
    forall|i: int, j: int| 0 <= i < j < s.len() ==> #[trigger] s[i] != #[trigger] s[j]
}

/// The pairs are positions off of the border of an `n x n` board.
pub open spec fn pairs_interior(s: Seq<(int, int)>, n: int) -> bool {
    forall|i: int| 0 <= i < s.len() ==> 1 <= (#[trigger] s[i]).0 <= n - 2 && 1 <= s[i].1 <= n - 2
}

/// The positions are on distinct tiles.
pub open spec fn distinct_tiles(s: Seq<PackedIdx>) -> bool {
    forall|i: int, j: int|
        0 <= i < j < s.len() ==> !(#[trigger] s[i].sx() == #[trigger] s[j].sx() && s[i].sy()
            == s[j].sy())
}

/// The whitespace that separates the tiles of a board string.
pub open spec fn is_ascii_ws(c: char) -> bool {
    c == ' ' || c == '\t' || c == '\n' || c == '\r' || c == '\x0C'
}

/// The kind of a tile of a board string: 0 for a black pawn, 1 for a white
/// pawn, 2 for an empty tile, and 3 for anything else.
pub open spec fn tile_kind(t: Seq<char>) -> int {
    if t == seq!['B'] || t == seq!['b'] {
        0
    } else if t == seq!['W'] || t == seq!['w'] {
        1
    } else if t == seq!['.'] {
        2
    } else {
        3
    }
}

/// Adds the finished tile `cur` in column `col` of line `line` to the black
/// and white pawns found so far, or returns it if it is not a valid tile.
pub open spec fn flush_tile(
    line: int,
    col: int,
    cur: Seq<char>,
    black: Seq<(int, int)>,
    white: Seq<(int, int)>,
) -> Result<(Seq<(int, int)>, Seq<(int, int)>), Seq<char>> {
    if cur.len() == 0 {
        Ok((black, white))
    } else if tile_kind(cur) == 0 {
        Ok((black.push((col, line)), white))
    } else if tile_kind(cur) == 1 {
        Ok((black, white.push((col, line))))
    } else if tile_kind(cur) == 2 {
        Ok((black, white))
    } else {
        Err(cur)
    }
}

/// Reads the rest `s[i..]` of a board string whose lines are separated by
/// `'\n'` and whose tiles are separated by ASCII whitespace. `line` is the
/// current line, `col` the index of the next tile in it, and `cur` the
/// characters of the tile being read. Returns the (column, line) of every
/// black and every white pawn, or the first tile which is not `B`, `b`, `W`,
/// `w` or `.`.
pub open spec fn scan_board(
    s: Seq<char>,
    i: int,
    line: int,
    col: int,
    cur: Seq<char>,
    black: Seq<(int, int)>,
    white: Seq<(int, int)>,
) -> Result<(Seq<(int, int)>, Seq<(int, int)>), Seq<char>>
    decreases s.len() - i,
{
    if i >= s.len() {
        flush_tile(line, col, cur, black, white)
    } else if is_ascii_ws(s[i]) {
        match flush_tile(line, col, cur, black, white) {
            Err(t) => Err(t),
            Ok(bw) => if s[i] == '\n' {
                scan_board(s, i + 1, line + 1, 0, seq![], bw.0, bw.1)
            } else {
                scan_board(
                    s,
                    i + 1,
                    line,
                    if cur.len() > 0 {
                        col + 1
                    } else {
                        col
                    },
                    seq![],
                    bw.0,
                    bw.1,
                )
            },
        }
    } else {
        scan_board(s, i + 1, line, col, cur.push(s[i]), black, white)
    }
}

/// The (column, line) of the black and white pawns of a board string.
pub open spec fn board_tiles(s: Seq<char>) -> Result<(Seq<(int, int)>, Seq<(int, int)>), Seq<char>> {
    scan_board(s, 0, 0, 0, seq![], seq![], seq![])
}

pub open spec fn pair_view(v: Seq<(usize, usize)>) -> Seq<(int, int)> {
    v.map_values(|p: (usize, usize)| (p.0 as int, p.1 as int))
}

fn tile_kind_exec(t: &Vec<char>) -> (r: u8)
    ensures
        r == tile_kind(t@),
{
    if t.len() == 1 {
        let c = t[0];
        proof {
            assert(t@ == seq![c]);
        }
        if c == 'B' || c == 'b' {
            proof {
                assert(seq!['B'] == seq![c] || seq!['b'] == seq![c]);
            }
            0
        } else if c == 'W' || c == 'w' {
            proof {
                assert(seq!['B'] != seq![c] && seq!['b'] != seq![c]);
                assert(seq!['W'] == seq![c] || seq!['w'] == seq![c]);
            }
            1
        } else if c == '.' {
            proof {
                assert(seq!['B'] != seq![c] && seq!['b'] != seq![c]);
                assert(seq!['W'] != seq![c] && seq!['w'] != seq![c]);
            }
            2
        } else {
            proof {
                assert(seq!['B'] != seq![c] && seq!['b'] != seq![c]);
                assert(seq!['W'] != seq![c] && seq!['w'] != seq![c]);
                assert(seq!['.'] != seq![c]);
            }
            3
        }
    } else {
        proof {
            assert(seq!['B'].len() == 1 && seq!['b'].len() == 1 && seq!['W'].len() == 1 && seq!['w'].len() == 1 && seq!['.'].len() == 1);
        }
        3
    }
}

/// Reads the black and white pawns of a board string as (column, line)
/// pairs, or returns the first tile which is not valid.
pub fn parse_board_tiles(board: &str) -> (r: Result<(Vec<(usize, usize)>, Vec<(usize, usize)>), Vec<char>>)
    ensures
        match (r, board_tiles(board@)) {
            (Ok(bw), Ok(sbw)) => pair_view(bw.0@) == sbw.0 && pair_view(bw.1@) == sbw.1,
            (Err(t), Err(st)) => t@ == st,
            _ => false,
        },
{
    let len = board.unicode_len();
    let ghost s = board@;
    let mut black: Vec<(usize, usize)> = Vec::new();
    let mut white: Vec<(usize, usize)> = Vec::new();
    let mut cur: Vec<char> = Vec::new();
    let mut line: usize = 0;
    let mut col: usize = 0;
    let mut i: usize = 0;
    assert(pair_view(black@) =~= seq![]);
    assert(pair_view(white@) =~= seq![]);
    assert(cur@ =~= seq![]);
    while i < len
        invariant
            len == s.len(),
            s == board@,
            i <= len,
            line <= i,
            col <= i,
            scan_board(s, i as int, line as int, col as int, cur@, pair_view(black@), pair_view(white@))
                == board_tiles(s),
        decreases len - i,
    {
        let c = board.get_char(i);
        if c == ' ' || c == '\t' || c == '\n' || c == '\r' || c == '\x0C' {
            let had_tile = cur.len() > 0;
            if had_tile {
                let kind = tile_kind_exec(&cur);
                let ghost b0 = black@;
                let ghost w0 = white@;
                if kind == 0 {
                    black.push((col, line));
                    assert(pair_view(black@) =~= pair_view(b0).push((col as int, line as int)));
                } else if kind == 1 {
                    white.push((col, line));
                    assert(pair_view(white@) =~= pair_view(w0).push((col as int, line as int)));
                } else if kind == 3 {
                    return Err(cur);
                }
            }
            if c == '\n' {
                line += 1;
                col = 0;
            } else if had_tile {
                col += 1;
            }
            cur = Vec::new();
        } else {
            cur.push(c);
        }
        i += 1;
    }
    if cur.len() > 0 {
        let kind = tile_kind_exec(&cur);
        let ghost b0 = black@;
        let ghost w0 = white@;
        if kind == 0 {
            black.push((col, line));
            assert(pair_view(black@) =~= pair_view(b0).push((col as int, line as int)));
        } else if kind == 1 {
            white.push((col, line));
            assert(pair_view(white@) =~= pair_view(w0).push((col as int, line as int)));
        } else if kind == 3 {
            return Err(cur);
        }
    }
    Ok((black, white))
}

/// The black and white pawns of a board string.
#[derive(Debug, Clone)]
pub struct BoardLayoutPawns {
    pub black_pawns: Vec<PackedIdx>,
    pub white_pawns: Vec<PackedIdx>,
}

/// The board position of the tile in column `col` of line `line` of a board
/// string, for a game with `n` pawns per player: lines go down the board.
pub open spec fn layout_pos(p: (int, int), n: int) -> (int, int) {
    (p.0 + 1, n - p.1 - 2)
}

/// The position of the tile lies on a board of 4-bit coordinates.
pub open spec fn layout_in_range(p: (int, int), n: int) -> bool {
    let q = layout_pos(p, n);
    0 <= q.0 < 16 && 0 <= q.1 < 16
}

/// The counts of black and white pawns are allowed: at most `n` each, at
/// least one black pawn, and as many white pawns or one fewer.
pub open spec fn layout_counts_ok(b: int, w: int, n: int) -> bool {
    b <= n && w <= n && b >= 1 && b - 1 <= w <= b
}

/// The black and white pawns of the board string `s` for a game with `n`
/// pawns per player, as (x, y) positions, or `None` if the string is not a
/// valid board.
pub open spec fn board_layout(s: Seq<char>, n: int) -> Option<(Seq<(int, int)>, Seq<(int, int)>)> {
    match board_tiles(s) {
        Err(_) => None,
        Ok(bw) => if (forall|i: int| 0 <= i < bw.0.len() ==> layout_in_range(#[trigger] bw.0[i], n))
            && (forall|i: int| 0 <= i < bw.1.len() ==> layout_in_range(#[trigger] bw.1[i], n))
            && layout_counts_ok(bw.0.len() as int, bw.1.len() as int, n) {
            Some((
                bw.0.map_values(|p: (int, int)| layout_pos(p, n)),
                bw.1.map_values(|p: (int, int)| layout_pos(p, n)),
            ))
        } else {
            None
        },
    }
}

pub open spec fn coords(s: Seq<PackedIdx>) -> Seq<(int, int)> {
    s.map_values(|p: PackedIdx| (p.sx(), p.sy()))
}

/// Describes a tile which is not valid in a board string.
#[verifier::external_body]
fn invalid_tile_message(tile: &Vec<char>) -> String {
    format!("Invalid character in game state string: {}", tile.iter().collect::<String>())
}

/// Describes a board with too many pawns.
#[verifier::external_body]
pub(crate) fn too_many_pawns_message(black: usize, white: usize) -> String {
    format!("Too many pawns in board: {} black and {} white", black, white)
}

/// Describes a board with the wrong number of white pawns.
#[verifier::external_body]
pub(crate) fn color_counts_message(black: usize, white: usize) -> String {
    format!(
        "There must be either one fewer or equally many white pawns as there are black. Found {} black and {} white.",
        black,
        white
    )
}

/// Converts (column, line) tiles of a board string to positions.
fn layout_positions(tiles: &Vec<(usize, usize)>, n: usize) -> (r: Option<Vec<PackedIdx>>)
    ensures
        r.is_some() <==> forall|i: int| 0 <= i < tiles.len() ==> layout_in_range(#[trigger] pair_view(tiles@)[i], n as int),
        r.is_some() ==> coords(r.unwrap()@) == pair_view(tiles@).map_values(|p: (int, int)| layout_pos(p, n as int)),
{
    let mut v: Vec<PackedIdx> = Vec::new();
    let mut i: usize = 0;
    while i < tiles.len()
        invariant
            i <= tiles.len(),
            v.len() == i,
            forall|j: int| 0 <= j < i ==> layout_in_range(#[trigger] pair_view(tiles@)[j], n as int),
            forall|j: int| 0 <= j < i ==> (#[trigger] v[j].sx(), v[j].sy()) == layout_pos(pair_view(tiles@)[j], n as int),
        decreases tiles.len() - i,
    {
        let (col, line) = tiles[i];
        proof {
            assert(pair_view(tiles@)[i as int] == (col as int, line as int));
        }
        if !(col < 15 && n >= 2 && line <= n - 2 && n - line - 2 < 16) {
            return None;
        }
        v.push(PackedIdx::new((col + 1) as u32, (n - line - 2) as u32));
        i += 1;
    }
    assert(coords(v@) =~= pair_view(tiles@).map_values(|p: (int, int)| layout_pos(p, n as int)));
    Some(v)
}

/// Reads the black and white pawns of a board string for a game with `n`
/// pawns per player: the tile in column `x` of line `y` is at position
/// `(x + 1, n - y - 2)`. Fails on a tile other than `B`, `b`, `W`, `w` and
/// `.`, on a pawn which lies off of a board of 4-bit coordinates, on more
/// than `n` pawns of a color, on no black pawn, and unless there are as many
/// white pawns as black ones or one fewer.
pub fn pawns_from_board_string(board: &str, n: usize) -> (r: Result<BoardLayoutPawns, OnoroError>)
    ensures
        r.is_ok() <==> board_layout(board@, n as int).is_some(),
        r.is_ok() ==> coords(r.unwrap().black_pawns@) == board_layout(board@, n as int).unwrap().0
            && coords(r.unwrap().white_pawns@) == board_layout(board@, n as int).unwrap().1,
{
    let (black, white) = match parse_board_tiles(board) {
        Ok(bw) => bw,
        Err(tile) => {
            return Err(OnoroError::new(invalid_tile_message(&tile)));
        },
    };
    let black_pawns = match layout_positions(&black, n) {
        Some(v) => v,
        None => {
            return Err(OnoroError::new(String::from_str("Pawn lies outside of the board.")));
        },
    };
    let white_pawns = match layout_positions(&white, n) {
        Some(v) => v,
        None => {
            return Err(OnoroError::new(String::from_str("Pawn lies outside of the board.")));
        },
    };
    proof {
        assert(coords(black_pawns@).len() == black_pawns@.len());
        assert(coords(white_pawns@).len() == white_pawns@.len());
        assert(pair_view(black@).len() == black@.len());
        assert(pair_view(white@).len() == white@.len());
    }
    if black_pawns.len() > n || white_pawns.len() > n {
        return Err(OnoroError::new(too_many_pawns_message(black_pawns.len(), white_pawns.len())));
    }
    if black_pawns.len() == 0 {
        return Err(
            OnoroError::new(
                String::from_str(
                    "Must have at least one black pawn placed, since they are the first player.",
                ),
            ),
        );
    }
    if !(black_pawns.len() - 1 <= white_pawns.len() && white_pawns.len() <= black_pawns.len()) {
        return Err(OnoroError::new(color_counts_message(black_pawns.len(), white_pawns.len())));
    }
    Ok(BoardLayoutPawns { black_pawns, white_pawns })
}

impl<const N: usize> OnoroImpl<N> {
    /// Places pawns at `pawns`, in order, without checking that each is next
    /// to two other pawns: even entries are black and odd entries are white.
    /// Returns `None` if there are no pawns or more than `N`, or if a pawn
    /// cannot be placed (it is off the board, or placing it would push a pawn
    /// onto the border or onto another pawn).
    pub fn from_indexes(pawns: &Vec<PackedIdx>) -> (r: Option<Self>)
        requires
            valid_width(N as int),
        ensures
            r.is_some() ==> r.unwrap().wf() && r.unwrap().n_spec() == pawns.len(),
            r.is_some() ==> (r.unwrap().st().black_turn_spec() <==> pawns.len() % 2 == 0),
            (forall|i: int| 0 <= i < pawns.len() ==> interior(#[trigger] pawns[i], N as int))
                ==> (r.is_some() <==> (1 <= pawns.len() <= N && distinct_tiles(pawns@))),
            (r.is_some() && forall|i: int| 0 <= i < pawns.len() ==> interior(#[trigger] pawns[i], N as int))
                ==> (forall|i: int| 0 <= i < pawns.len() ==> #[trigger] r.unwrap().poses()[i].sx()
                == pawns[i].sx() && r.unwrap().poses()[i].sy() == pawns[i].sy()),
    {
        if pawns.len() == 0 || pawns.len() > N {
            return None;
        }
        let first = match Self::with_first_pawn(pawns[0]) {
            Some(g) => g,
            None => {
                return None;
            },
        };
        let mut game = first;
        let ghost all_interior = forall|i: int| 0 <= i < pawns.len() ==> interior(#[trigger] pawns[i], N as int);
        let mut i: usize = 1;
        while i < pawns.len()
            invariant
                valid_width(N as int),
                1 <= i <= pawns.len() <= N,
                game.wf(),
                game.n_spec() == i,
                game.st().black_turn_spec() <==> i % 2 == 0,
                all_interior == forall|i: int| 0 <= i < pawns.len() ==> interior(#[trigger] pawns[i], N as int),
                all_interior ==> forall|j: int| 0 <= j < i ==> #[trigger] game.poses()[j].sx() == pawns[j].sx()
                    && game.poses()[j].sy() == pawns[j].sy(),
                all_interior ==> distinct_tiles(pawns@.take(i as int)),
            decreases pawns.len() - i,
        {
            let m = Move::Phase1Move { to: pawns[i] };
            if !game.move_fits(m) {
                proof {
                    if all_interior {
                        let p = pawns[i as int];
                        assert(shift_spec(p, N as int) == (0int, 0int));
                        if distinct_tiles(pawns@) {
                            assert forall|j: int| 0 <= j < i + 1 && j != i implies !(#[trigger] game.poses()[j].sx() == p.sx() && game.poses()[j].sy() == p.sy()) by {
                                assert(pawns@[j] == pawns[j]);
                            }
                            assert forall|j: int| 0 <= j < i + 1 && j != i implies 1 <= #[trigger] game.poses()[j].sx() + 0 <= N - 2 && 1 <= game.poses()[j].sy() + 0 <= N - 2 by {
                                assert(interior(game.poses()[j], N as int));
                            }
                            assert(game.can_make_move(m));
                        }
                    }
                }
                return None;
            }
            let ghost before = game.poses();
            game.make_move_unchecked(m);
            proof {
                if all_interior {
                    let p = pawns[i as int];
                    assert(shift_spec(p, N as int) == (0int, 0int));
                    assert(moved_spec(before, game.poses(), i as int, p, i + 1, N as int));
                    assert forall|j: int| 0 <= j < i + 1 implies #[trigger] game.poses()[j].sx() == pawns[j].sx()
                        && game.poses()[j].sy() == pawns[j].sy() by {
                        if j < i {
                            assert(before[j].sx() == pawns[j].sx());
                        }
                    }
                    let t = pawns@.take(i + 1);
                    assert forall|a: int, b: int| 0 <= a < b < t.len() implies !(#[trigger] t[a].sx() == #[trigger] t[b].sx() && t[a].sy() == t[b].sy()) by {
                        if b < i {
                            assert(pawns@.take(i as int)[a] == t[a]);
                            assert(pawns@.take(i as int)[b] == t[b]);
                        } else {
                            assert(t[b] == p);
                            assert(t[a] == pawns[a]);
                            assert(game.poses()[a] != game.poses()[b]);
                            game.poses()[a].lemma_coords_eq(game.poses()[b]);
                        }
                    }
                }
            }
            i += 1;
        }
        proof {
            if all_interior {
                assert(pawns@.take(pawns.len() as int) == pawns@);
            }
        }
        Some(game)
    }

    /// Places the pawns in turns, black first: `black[0]`, `white[0]`,
    /// `black[1]`, ..., as `from_indexes` does.
    pub fn from_colored_positions(black: Vec<PackedIdx>, white: Vec<PackedIdx>) -> (r: Option<
        Self,
    >)
        requires
            valid_width(N as int),
            1 <= black.len(),
            black.len() - 1 <= white.len() <= black.len(),
        ensures
            ({
                let all = interleave_spec(black@, white@);
                &&& all.len() == black.len() + white.len()
                &&& r.is_some() ==> r.unwrap().wf() && r.unwrap().n_spec() == all.len()
                &&& r.is_some() ==> (r.unwrap().st().black_turn_spec() <==> all.len() % 2 == 0)
                &&& (forall|i: int| 0 <= i < all.len() ==> interior(#[trigger] all[i], N as int))
                    ==> (r.is_some() <==> (all.len() <= N && distinct_tiles(all)))
                &&& (r.is_some() && forall|i: int|
                    0 <= i < all.len() ==> interior(#[trigger] all[i], N as int)) ==> (forall|i: int|
                    0 <= i < all.len() ==> #[trigger] r.unwrap().poses()[i].sx() == all[i].sx()
                        && r.unwrap().poses()[i].sy() == all[i].sy())
            }),
    {
        let ghost bs = black@;
        let ghost ws = white@;
        let mut rest: Vec<PackedIdx> = Vec::new();
        let mut i: usize = 1;
        while i < black.len()
            invariant
                1 <= i <= black.len(),
                rest@ == black@.subrange(1, i as int),
            decreases black.len() - i,
        {
            rest.push(black[i]);
            i += 1;
        }
        assert(rest@ == bs.drop_first());
        let inter = interleave_positions(white, rest);
        let mut all: Vec<PackedIdx> = Vec::new();
        all.push(black[0]);
        let mut j: usize = 0;
        while j < inter.len()
            invariant
                j <= inter.len(),
                all@ == seq![bs[0]] + inter@.take(j as int),
            decreases inter.len() - j,
        {
            all.push(inter[j]);
            j += 1;
        }
        proof {
            lemma_interleave_index(bs, ws);
            assert(inter@.take(inter.len() as int) == inter@);
            assert(all@ == interleave_spec(bs, ws));
        }
        Self::from_indexes(&all)
    }

    /// The starting position: a black pawn in the middle of the board, a white
    /// pawn diagonally up and to the right of it, and a black pawn to the
    /// right of the first.
    pub fn default_start() -> (r: Self)
        requires
            valid_width(N as int),
        ensures
            r.wf(),
            r.n_spec() == 3,
            r.poses()[0].sx() == (N - 1) / 2 && r.poses()[0].sy() == (N - 1) / 2,
            r.poses()[1].sx() == (N - 1) / 2 + 1 && r.poses()[1].sy() == (N - 1) / 2 + 1,
            r.poses()[2].sx() == (N - 1) / 2 + 1 && r.poses()[2].sy() == (N - 1) / 2,
    {
        let mid: u32 = ((N - 1) / 2) as u32;
        let mut v: Vec<PackedIdx> = Vec::new();
        v.push(PackedIdx::new(mid, mid));
        v.push(PackedIdx::new(mid + 1, mid + 1));
        v.push(PackedIdx::new(mid + 1, mid));
        proof {
            assert(interior(v[0], N as int));
            assert(interior(v[1], N as int));
            assert(interior(v[2], N as int));
        }
        match Self::from_indexes(&v) {
            Some(g) => g,
            None => {
                proof {
                    assert(false);
                }
                Self::blank()
            },
        }
    }

    /// Builds a game from a board string, where lines go down the board and
    /// tiles are separated by whitespace: `B` or `b` is a black pawn, `W` or
    /// `w` a white pawn and `.` an empty tile (see
    /// `pawns_from_board_string`). Fails if the string is not a valid board
    /// or its pawns cannot be placed on this board.
    pub fn from_board_string(board: &str) -> (r: Result<Self, OnoroError>)
        requires
            valid_width(N as int),
        ensures
            board_layout(board@, N as int / 2).is_none() ==> r.is_err(),
            r.is_ok() ==> r.unwrap().wf() && board_layout(board@, N as int / 2).is_some()
                && r.unwrap().n_spec() == board_layout(board@, N as int / 2).unwrap().0.len()
                + board_layout(board@, N as int / 2).unwrap().1.len(),
            r.is_ok() ==> (r.unwrap().st().black_turn_spec() <==> r.unwrap().n_spec() % 2 == 0),
            ({
                let l = board_layout(board@, N as int / 2);
                (l.is_some() && pairs_interior(l.unwrap().0 + l.unwrap().1, N as int) && distinct_pairs(
                    l.unwrap().0 + l.unwrap().1,
                )) ==> {
                    &&& r.is_ok()
                    &&& forall|i: int| 0 <= i < l.unwrap().0.len() ==> r.unwrap().tile_spec(
                        (#[trigger] l.unwrap().0[i]).0,
                        l.unwrap().0[i].1,
                    ) == TileState::Black
                    &&& forall|i: int| 0 <= i < l.unwrap().1.len() ==> r.unwrap().tile_spec(
                        (#[trigger] l.unwrap().1[i]).0,
                        l.unwrap().1[i].1,
                    ) == TileState::White
                }
            }),
    {
        let layout = pawns_from_board_string(board, N / 2)?;
        let black = layout.black_pawns;
        let white = layout.white_pawns;
        let ghost b = coords(black@);
        let ghost w = coords(white@);
        proof {
            let bw = board_tiles(board@)->Ok_0;
            assert(b.len() == black.len());
            assert(w.len() == white.len());
            assert(b.len() == bw.0.len());
            assert(w.len() == bw.1.len());
            assert(layout_counts_ok(bw.0.len() as int, bw.1.len() as int, N as int / 2));
        }
        let mut rest: Vec<PackedIdx> = Vec::new();
        let mut i: usize = 1;
        while i < black.len()
            invariant
                1 <= i <= black.len(),
                rest.len() == i - 1,
                forall|j: int| 0 <= j < rest.len() ==> rest[j] == black[j + 1],
            decreases black.len() - i,
        {
            rest.push(black[i]);
            i += 1;
        }
        let ghost rest_s = rest@;
        let ghost white_s = white@;
        let inter = interleave_positions(white, rest);
        let mut all: Vec<PackedIdx> = Vec::new();
        all.push(black[0]);
        let mut j: usize = 0;
        while j < inter.len()
            invariant
                j <= inter.len(),
                all.len() == j + 1,
                all[0] == black[0],
                forall|k: int| 0 <= k < j ==> all[k + 1] == inter[k],
            decreases inter.len() - j,
        {
            all.push(inter[j]);
            j += 1;
        }
        proof {
            lemma_interleave_index(white_s, rest_s);
            assert forall|k: int| 0 <= k < all.len() implies #[trigger] all[k] == if k % 2 == 0 {
                black[k / 2]
            } else {
                white_s[k / 2]
            } by {
                if k > 0 {
                    assert(all[k] == inter[k - 1]);
                    if k % 2 == 0 {
                        assert((k - 1) % 2 == 1 && (k - 1) / 2 == k / 2 - 1);
                        assert(rest_s[k / 2 - 1] == black[k / 2]);
                    } else {
                        assert((k - 1) % 2 == 0 && (k - 1) / 2 == k / 2);
                    }
                }
            }
        }
        proof {
            let l = board_layout(board@, N as int / 2);
            let bw = l.unwrap();
            assert(bw.0 == b && bw.1 == w);
            if pairs_interior(b + w, N as int) && distinct_pairs(b + w) {
                assert forall|k: int| 0 <= k < all.len() implies interior(#[trigger] all[k], N as int) by {
                    if k % 2 == 0 {
                        assert((b + w)[k / 2] == b[k / 2]);
                    } else {
                        assert((b + w)[b.len() + k / 2] == w[k / 2]);
                    }
                }
                assert forall|k1: int, k2: int| 0 <= k1 < k2 < all@.len() implies !(#[trigger] all@[k1].sx() == #[trigger] all@[k2].sx() && all@[k1].sy() == all@[k2].sy()) by {
                    let i1 = if k1 % 2 == 0 { k1 / 2 } else { b.len() + k1 / 2 };
                    let i2 = if k2 % 2 == 0 { k2 / 2 } else { b.len() + k2 / 2 };
                    assert((b + w)[i1] == (all@[k1].sx(), all@[k1].sy()));
                    assert((b + w)[i2] == (all@[k2].sx(), all@[k2].sy()));
                    if i1 < i2 {
                        assert((b + w)[i1] != (b + w)[i2]);
                    } else {
                        assert(i1 != i2);
                        assert((b + w)[i2] != (b + w)[i1]);
                    }
                }
            }
        }
        let g = match Self::from_indexes(&all) {
            Some(g) => g,
            None => {
                return Err(OnoroError::new(String::from_str("The pawns do not fit on the board.")));
            },
        };
        proof {
            let l = board_layout(board@, N as int / 2);
            let bw = l.unwrap();
            assert(bw.0 == b && bw.1 == w);
            if pairs_interior(b + w, N as int) && distinct_pairs(b + w) {
                let s = g.poses();
                let n = g.n_spec();
                assert forall|i: int| 0 <= i < b.len() implies g.tile_spec((#[trigger] b[i]).0, b[i].1) == TileState::Black by {
                    assert(s[2 * i].sx() == all[2 * i].sx());
                    assert(crate::onoro_impl::has_pawn_at(s, n, 0, b[i].0, b[i].1));
                }
                assert forall|i: int| 0 <= i < w.len() implies g.tile_spec((#[trigger] w[i]).0, w[i].1) == TileState::White by {
                    assert(s[2 * i + 1].sx() == all[2 * i + 1].sx());
                    assert(crate::onoro_impl::has_pawn_at(s, n, 1, w[i].0, w[i].1));
                    assert forall|k: int| 0 <= k < n && k % 2 == 0 implies !(#[trigger] s[k].sx() == w[i].0 && s[k].sy() == w[i].1) by {
                        assert(all@[k] == all[k]);
                        assert(all@[2 * i + 1] == all[2 * i + 1]);
                    }
                }
            }
        }
        Ok(g)
    }
}

/// The pawns `pawns` stretch beyond a board of width `n`: some pawn is `n - 1`
/// or more tiles right of, or above, the leftmost or lowest pawn.
pub open spec fn pawns_stretch(pawns: Seq<(HexPosOffset, PawnColor)>, n: int) -> bool {
    exists|i: int, j: int|
        0 <= i < pawns.len() && 0 <= j < pawns.len() && (#[trigger] pawns[i].0.x
            - #[trigger] pawns[j].0.x >= n - 1 || pawns[i].0.y - pawns[j].0.y >= n - 1)
}

/// The pawns fit strictly inside a board of width `n` once the leftmost and
/// lowest pawns are one tile off of the border: no pawn is more than `n - 3`
/// tiles right of, or above, another.
pub open spec fn pawns_fit_inside(pawns: Seq<(HexPosOffset, PawnColor)>, n: int) -> bool {
    forall|i: int, j: int|
        0 <= i < pawns.len() && 0 <= j < pawns.len() ==> #[trigger] pawns[i].0.x
            - #[trigger] pawns[j].0.x <= n - 3 && pawns[i].0.y - pawns[j].0.y <= n - 3
}

/// The number of black pawns among the first `k` of `pawns`.
pub open spec fn black_count(pawns: Seq<(HexPosOffset, PawnColor)>, k: int) -> int
    decreases k,
{
    if k <= 0 {
        0
    } else {
        black_count(pawns, k - 1) + if pawns[k - 1].1 == PawnColor::Black {
            1int
        } else {
            0int
        }
    }
}

/// There are as many white pawns as black pawns, or one fewer.
pub open spec fn counts_balanced(pawns: Seq<(HexPosOffset, PawnColor)>) -> bool {
    let b = black_count(pawns, pawns.len() as int);
    let w = pawns.len() - b;
    b - 1 <= w <= b
}

/// No two pawns are at the same position.
pub open spec fn distinct_positions(pawns: Seq<(HexPosOffset, PawnColor)>) -> bool {
    forall|a: int, b: int| 0 <= a < b < pawns.len() ==> #[trigger] pawns[a].0 != #[trigger] pawns[b].0
}

/// `m` is the smallest x-coordinate of the pawns.
pub open spec fn is_min_x(pawns: Seq<(HexPosOffset, PawnColor)>, m: int) -> bool {
    &&& exists|j: int| 0 <= j < pawns.len() && #[trigger] pawns[j].0.x == m
    &&& forall|j: int| 0 <= j < pawns.len() ==> m <= #[trigger] pawns[j].0.x
}

/// `m` is the smallest y-coordinate of the pawns.
pub open spec fn is_min_y(pawns: Seq<(HexPosOffset, PawnColor)>, m: int) -> bool {
    &&& exists|j: int| 0 <= j < pawns.len() && #[trigger] pawns[j].0.y == m
    &&& forall|j: int| 0 <= j < pawns.len() ==> m <= #[trigger] pawns[j].0.y
}

/// The smallest x-coordinate of the pawns.
pub open spec fn min_x(pawns: Seq<(HexPosOffset, PawnColor)>) -> int {
    choose|m: int| is_min_x(pawns, m)
}

/// The smallest y-coordinate of the pawns.
pub open spec fn min_y(pawns: Seq<(HexPosOffset, PawnColor)>) -> int {
    choose|m: int| is_min_y(pawns, m)
}

proof fn lemma_min_unique(pawns: Seq<(HexPosOffset, PawnColor)>, mx: int, my: int)
    requires
        is_min_x(pawns, mx),
        is_min_y(pawns, my),
    ensures
        min_x(pawns) == mx,
        min_y(pawns) == my,
{
    let cx = min_x(pawns);
    let cy = min_y(pawns);
    let jx = choose|j: int| 0 <= j < pawns.len() && #[trigger] pawns[j].0.x == mx;
    let jy = choose|j: int| 0 <= j < pawns.len() && #[trigger] pawns[j].0.y == my;
    let kx = choose|j: int| 0 <= j < pawns.len() && #[trigger] pawns[j].0.x == cx;
    let ky = choose|j: int| 0 <= j < pawns.len() && #[trigger] pawns[j].0.y == cy;
    assert(cx <= pawns[jx].0.x);
    assert(mx <= pawns[kx].0.x);
    assert(cy <= pawns[jy].0.y);
    assert(my <= pawns[ky].0.y);
}

/// The tile on which `from_pawns` puts pawn `j`: the pawns translated so that
/// the leftmost and lowest ones are one tile off of the border.
pub open spec fn placed_tile(pawns: Seq<(HexPosOffset, PawnColor)>, j: int) -> (int, int) {
    (pawns[j].0.x - min_x(pawns) + 1, pawns[j].0.y - min_y(pawns) + 1)
}

/// The tile state that a pawn of color `c` makes.
pub open spec fn color_tile(c: PawnColor) -> TileState {
    match c {
        PawnColor::Black => TileState::Black,
        PawnColor::White => TileState::White,
    }
}

/// The color at index `p` after `i` of the swaps that alternate the colors of
/// `half` black pawns followed by white pawns.
spec fn swap_color(p: int, i: int, half: int) -> PawnColor {
    if p < 2 * i {
        if p % 2 == 0 {
            PawnColor::Black
        } else {
            PawnColor::White
        }
    } else if p < half + i {
        PawnColor::Black
    } else {
        PawnColor::White
    }
}

impl<const N: usize> OnoroImpl<N> {
    #[verifier::spinoff_prover]
    #[verifier::rlimit(50)]
    proof fn lemma_from_pawns_result(
        pawns: Seq<(HexPosOffset, PawnColor)>,
        ordered: Seq<(HexPosOffset, PawnColor)>,
        indexes: Seq<PackedIdx>,
        perm: Seq<int>,
        cinv: Seq<int>,
        mx: int,
        my: int,
        r: Option<Self>,
    )
        requires
            valid_width(N as int),
            1 <= pawns.len() <= N,
            ordered.len() == pawns.len(),
            indexes.len() == pawns.len(),
            perm.len() == pawns.len(),
            cinv.len() == pawns.len(),
            is_min_x(pawns, mx),
            is_min_y(pawns, my),
            forall|k: int|
                0 <= k < pawns.len() ==> 0 <= #[trigger] perm[k] < pawns.len() && ordered[k]
                    == pawns[perm[k]] && cinv[perm[k]] == k && ordered[k].1 == swap_color(
                    k,
                    (pawns.len() - 1) / 2,
                    ((pawns.len() + 1) / 2) as int,
                ),
            forall|j: int| 0 <= j < pawns.len() ==> 0 <= #[trigger] cinv[j] < pawns.len() && perm[cinv[j]] == j,
            forall|k: int|
                0 <= k < pawns.len() ==> (#[trigger] indexes[k]).sx() == ordered[k].0.x - mx + 1
                    && indexes[k].sy() == ordered[k].0.y - my + 1,
            r.is_some() ==> r.unwrap().wf() && r.unwrap().n_spec() == indexes.len(),
            (forall|i: int| 0 <= i < indexes.len() ==> interior(#[trigger] indexes[i], N as int))
                ==> (r.is_some() <==> (1 <= indexes.len() <= N && distinct_tiles(indexes))),
            (r.is_some() && forall|i: int| 0 <= i < indexes.len() ==> interior(#[trigger] indexes[i], N as int))
                ==> (forall|i: int| 0 <= i < indexes.len() ==> #[trigger] r.unwrap().poses()[i].sx()
                == indexes[i].sx() && r.unwrap().poses()[i].sy() == indexes[i].sy()),
        ensures
            pawns_fit_inside(pawns, N as int) ==> (r.is_some() <==> distinct_positions(pawns)),
            r.is_some() && pawns_fit_inside(pawns, N as int) ==> {
                &&& forall|j: int|
                    0 <= j < pawns.len() ==> r.unwrap().tile_spec(
                        (#[trigger] placed_tile(pawns, j)).0,
                        placed_tile(pawns, j).1,
                    ) == color_tile(pawns[j].1)
                &&& forall|x: int, y: int|
                    #[trigger] r.unwrap().tile_spec(x, y) != TileState::Empty ==> exists|j: int|
                        0 <= j < pawns.len() && #[trigger] placed_tile(pawns, j) == (x, y)
            },
    {
        lemma_min_unique(pawns, mx, my);
        let len = pawns.len() as int;
        assert forall|k: int| 0 <= k < len implies (#[trigger] ordered[k].1 == PawnColor::Black) == (k % 2
            == 0) by {
            assert(0 <= perm[k] < len);
            assert(ordered[k].1 == swap_color(k, (len - 1) / 2, (len + 1) / 2));
        }
        if pawns_fit_inside(pawns, N as int) {
            let jx = choose|j: int| 0 <= j < pawns.len() && #[trigger] pawns[j].0.x == mx;
            let jy = choose|j: int| 0 <= j < pawns.len() && #[trigger] pawns[j].0.y == my;
            assert forall|i: int| 0 <= i < indexes.len() implies interior(#[trigger] indexes[i], N as int) by {
                let p = perm[i];
                assert(pawns[p].0.x - pawns[jx].0.x <= N - 3);
                assert(pawns[p].0.x - pawns[jy].0.x <= N - 3 && pawns[p].0.y - pawns[jy].0.y <= N - 3);
                assert(mx <= pawns[p].0.x);
                assert(my <= pawns[p].0.y);
            }
            if distinct_positions(pawns) {
                assert forall|a: int, b: int| 0 <= a < b < indexes.len() implies !(#[trigger] indexes[a].sx()
                    == #[trigger] indexes[b].sx() && indexes[a].sy() == indexes[b].sy()) by {
                    if indexes[a].sx() == indexes[b].sx() && indexes[a].sy() == indexes[b].sy() {
                        let pa = perm[a];
                        let pb = perm[b];
                        assert(pawns[pa].0 == pawns[pb].0);
                        assert(pa != pb);
                        if pa < pb {
                            assert(pawns[pa].0 != pawns[pb].0);
                        } else {
                            assert(pawns[pb].0 != pawns[pa].0);
                        }
                    }
                }
            }
            if r.is_some() {
                assert(distinct_tiles(indexes));
                assert forall|a: int, b: int| 0 <= a < b < pawns.len() implies #[trigger] pawns[a].0
                    != #[trigger] pawns[b].0 by {
                    let ka = cinv[a];
                    let kb = cinv[b];
                    if pawns[a].0 == pawns[b].0 {
                        assert(ordered[ka] == pawns[a]);
                        assert(ordered[kb] == pawns[b]);
                        assert(indexes[ka].sx() == indexes[kb].sx());
                        assert(ka != kb);
                        if ka < kb {
                            assert(!(indexes[ka].sx() == indexes[kb].sx() && indexes[ka].sy() == indexes[kb].sy()));
                        } else {
                            assert(!(indexes[kb].sx() == indexes[ka].sx() && indexes[kb].sy() == indexes[ka].sy()));
                        }
                    }
                }
                let g = r.unwrap();
                let s = g.poses();
                assert forall|j: int| 0 <= j < pawns.len() implies g.tile_spec(
                    (#[trigger] placed_tile(pawns, j)).0,
                    placed_tile(pawns, j).1,
                ) == color_tile(pawns[j].1) by {
                    let k = cinv[j];
                    let t = placed_tile(pawns, j);
                    assert(ordered[k] == pawns[j]);
                    assert(s[k].sx() == indexes[k].sx());
                    assert(s[k].sx() == t.0 && s[k].sy() == t.1);
                    if pawns[j].1 == PawnColor::Black {
                        assert(k % 2 == 0);
                        assert(crate::onoro_impl::has_pawn_at(s, len, 0, t.0, t.1));
                    } else {
                        assert(k % 2 == 1);
                        assert forall|k2: int| 0 <= k2 < len && k2 % 2 == 0 implies !(#[trigger] s[k2].sx()
                            == t.0 && s[k2].sy() == t.1) by {
                            if s[k2].sx() == t.0 && s[k2].sy() == t.1 {
                                assert(s[k2].sx() == indexes[k2].sx());
                                if k2 < k {
                                    assert(!(indexes[k2].sx() == indexes[k].sx() && indexes[k2].sy()
                                        == indexes[k].sy()));
                                } else {
                                    assert(!(indexes[k].sx() == indexes[k2].sx() && indexes[k].sy()
                                        == indexes[k2].sy()));
                                }
                            }
                        }
                        assert(crate::onoro_impl::has_pawn_at(s, len, 1, t.0, t.1));
                    }
                }
                assert forall|x: int, y: int| #[trigger] g.tile_spec(x, y) != TileState::Empty implies exists|j: int|
                    0 <= j < pawns.len() && #[trigger] placed_tile(pawns, j) == (x, y) by {
                    let k = if crate::onoro_impl::has_pawn_at(s, len, 0, x, y) {
                        choose|i: int| 0 <= i < len && i % 2 == 0 && #[trigger] s[i].sx() == x && s[i].sy() == y
                    } else {
                        choose|i: int| 0 <= i < len && i % 2 == 1 && #[trigger] s[i].sx() == x && s[i].sy() == y
                    };
                    let j = perm[k];
                    assert(s[k].sx() == indexes[k].sx());
                    assert(ordered[k] == pawns[j]);
                    assert(placed_tile(pawns, j) == (x, y));
                }
            }
        }
    }

    /// The game with the given pawns, in any order, translated so that the
    /// leftmost and lowest pawns are one tile off of the border. The pawns
    /// are placed in turns, black pawns at even turns and white at odd ones.
    /// Fails if the pawns stretch beyond the board, if there are not as many
    /// white pawns as black pawns, or one fewer, or if the pawns cannot be
    /// placed (two share a tile, or they reach the far border). There must
    /// be at least one black pawn.
    #[verifier::spinoff_prover]
    #[verifier::rlimit(50)]
    pub fn from_pawns(pawns: Vec<(HexPosOffset, PawnColor)>) -> (r: Result<Self, String>)
        requires
            valid_width(N as int),
            1 <= pawns.len() <= N,
            forall|i: int| 0 <= i < pawns.len() ==> (#[trigger] pawns[i]).0.bounded(64),
            black_count(pawns@, pawns.len() as int) >= 1,
        ensures
            pawns_stretch(pawns@, N as int) ==> r is Err,
            !counts_balanced(pawns@) ==> r is Err,
            r is Ok ==> r->Ok_0.wf() && r->Ok_0.n_spec() == pawns.len(),
            r is Ok ==> (r->Ok_0.st().black_turn_spec() <==> pawns.len() % 2 == 0),
            pawns_fit_inside(pawns@, N as int) && counts_balanced(pawns@) ==> (r is Ok
                <==> distinct_positions(pawns@)),
            r is Ok && pawns_fit_inside(pawns@, N as int) ==> {
                &&& forall|j: int|
                    0 <= j < pawns.len() ==> r->Ok_0.tile_spec(
                        (#[trigger] placed_tile(pawns@, j)).0,
                        placed_tile(pawns@, j).1,
                    ) == color_tile(pawns[j].1)
                &&& forall|x: int, y: int|
                    #[trigger] r->Ok_0.tile_spec(x, y) != TileState::Empty ==> exists|j: int|
                        0 <= j < pawns.len() && #[trigger] placed_tile(pawns@, j) == (x, y)
            },
    {
        let n_pawns = pawns.len();
        let mut min_x: i32 = pawns[0].0.x;
        let mut min_y: i32 = pawns[0].0.y;
        let mut i: usize = 1;
        while i < n_pawns
            invariant
                1 <= i <= n_pawns,
                n_pawns == pawns.len(),
                forall|j: int| 0 <= j < pawns.len() ==> (#[trigger] pawns[j]).0.bounded(64),
                exists|j: int| 0 <= j < i && #[trigger] pawns[j].0.x == min_x,
                exists|j: int| 0 <= j < i && #[trigger] pawns[j].0.y == min_y,
                forall|j: int| 0 <= j < i ==> min_x <= #[trigger] pawns[j].0.x && min_y <= pawns[j].0.y,
            decreases n_pawns - i,
        {
            if pawns[i].0.x < min_x {
                min_x = pawns[i].0.x;
            }
            if pawns[i].0.y < min_y {
                min_y = pawns[i].0.y;
            }
            i += 1;
        }
        proof {
            assert(is_min_x(pawns@, min_x as int));
            assert(is_min_y(pawns@, min_y as int));
            lemma_min_unique(pawns@, min_x as int, min_y as int);
        }
        let w = N as i32;
        let mut i: usize = 0;
        while i < n_pawns
            invariant
                i <= n_pawns,
                n_pawns == pawns.len(),
                w == N,
                forall|j: int| 0 <= j < pawns.len() ==> (#[trigger] pawns[j]).0.bounded(64),
                forall|j: int| 0 <= j < pawns.len() ==> min_x <= #[trigger] pawns[j].0.x && min_y <= pawns[j].0.y,
                exists|j: int| 0 <= j < pawns.len() && #[trigger] pawns[j].0.x == min_x,
                exists|j: int| 0 <= j < pawns.len() && #[trigger] pawns[j].0.y == min_y,
                forall|j: int|
                    0 <= j < i ==> #[trigger] pawns[j].0.x - min_x < w - 1 && pawns[j].0.y - min_y < w - 1,
            decreases n_pawns - i,
        {
            if pawns[i].0.x - min_x >= w - 1 || pawns[i].0.y - min_y >= w - 1 {
                let ghost jx = choose|j: int| 0 <= j < pawns.len() && #[trigger] pawns[j].0.x == min_x;
                let ghost jy = choose|j: int| 0 <= j < pawns.len() && #[trigger] pawns[j].0.y == min_y;
                proof {
                    if pawns[i as int].0.x - min_x >= w - 1 {
                        assert(pawns[i as int].0.x - pawns[jx].0.x >= N - 1);
                    } else {
                        assert(pawns[i as int].0.y - pawns[jy].0.y >= N - 1);
                    }
                    let ii = i as int;
                    if pawns_fit_inside(pawns@, N as int) {
                        if pawns[ii].0.x - min_x >= w - 1 {
                            assert(pawns[ii].0.x - pawns[jx].0.x <= N - 3);
                        } else {
                            assert(pawns[ii].0.y - pawns[jy].0.y <= N - 3);
                        }
                    }
                }
                return Err(
                    "Pawns stretch beyond the maximum allowed size of the board, meaning this state is invalid.".to_owned(),
                );
            }
            i += 1;
        }
        proof {
            assert forall|a: int, b: int|
                0 <= a < pawns.len() && 0 <= b < pawns.len() implies !(#[trigger] pawns[a].0.x
                - #[trigger] pawns[b].0.x >= N - 1 || pawns[a].0.y - pawns[b].0.y >= N - 1) by {
                assert(pawns[a].0.x - min_x < N - 1);
                assert(min_x <= pawns[b].0.x);
            }
        }
        // Split the pawns by color, keeping their order. `inv` gives each
        // pawn's index in its color's list.
        let mut blacks: Vec<(HexPosOffset, PawnColor)> = Vec::new();
        let mut whites: Vec<(HexPosOffset, PawnColor)> = Vec::new();
        let ghost mut bperm: Seq<int> = Seq::empty();
        let ghost mut wperm: Seq<int> = Seq::empty();
        let ghost mut inv: Seq<int> = Seq::empty();
        let mut i: usize = 0;
        while i < n_pawns
            invariant
                i <= n_pawns,
                n_pawns == pawns.len(),
                blacks.len() == black_count(pawns@, i as int),
                blacks.len() + whites.len() == i,
                bperm.len() == blacks.len(),
                wperm.len() == whites.len(),
                inv.len() == i,
                forall|k: int|
                    0 <= k < blacks.len() ==> 0 <= #[trigger] bperm[k] < i && blacks[k] == pawns[bperm[k]]
                        && blacks[k].1 == PawnColor::Black && inv[bperm[k]] == k,
                forall|k: int|
                    0 <= k < whites.len() ==> 0 <= #[trigger] wperm[k] < i && whites[k] == pawns[wperm[k]]
                        && whites[k].1 == PawnColor::White && inv[wperm[k]] == k,
                forall|j: int|
                    0 <= j < i ==> if pawns[j].1 == PawnColor::Black {
                        0 <= #[trigger] inv[j] < blacks.len() && bperm[inv[j]] == j
                    } else {
                        0 <= inv[j] < whites.len() && wperm[inv[j]] == j
                    },
            decreases n_pawns - i,
        {
            let p = pawns[i];
            let ghost old_inv = inv;
            let ghost old_bperm = bperm;
            let ghost old_wperm = wperm;
            match p.1 {
                PawnColor::Black => {
                    proof {
                        bperm = bperm.push(i as int);
                        inv = inv.push(blacks.len() as int);
                    }
                    blacks.push(p);
                },
                PawnColor::White => {
                    proof {
                        wperm = wperm.push(i as int);
                        inv = inv.push(whites.len() as int);
                    }
                    whites.push(p);
                },
            }
            proof {
                assert forall|k: int| 0 <= k < blacks.len() implies 0 <= #[trigger] bperm[k] < i + 1
                    && blacks[k] == pawns[bperm[k]] && blacks[k].1 == PawnColor::Black
                    && inv[bperm[k]] == k by {
                    if k < old_bperm.len() {
                        assert(bperm[k] == old_bperm[k]);
                        assert(inv[old_bperm[k]] == old_inv[old_bperm[k]]);
                    }
                }
                assert forall|k: int| 0 <= k < whites.len() implies 0 <= #[trigger] wperm[k] < i + 1
                    && whites[k] == pawns[wperm[k]] && whites[k].1 == PawnColor::White
                    && inv[wperm[k]] == k by {
                    if k < old_wperm.len() {
                        assert(wperm[k] == old_wperm[k]);
                        assert(inv[old_wperm[k]] == old_inv[old_wperm[k]]);
                    }
                }
            }
            i += 1;
        }
        let black_n = blacks.len();
        let white_n = whites.len();
        if !(black_n - 1 <= white_n && white_n <= black_n) {
            return Err(color_counts_message(black_n, white_n));
        }
        // Black pawns first, then white.
        let mut ordered: Vec<(HexPosOffset, PawnColor)> = blacks;
        let mut j: usize = 0;
        while j < white_n
            invariant
                j <= white_n,
                white_n == whites.len(),
                black_n == blacks.len(),
                ordered.len() == black_n + j,
                forall|k: int| 0 <= k < black_n ==> #[trigger] ordered[k] == blacks[k],
                forall|k: int| 0 <= k < j ==> #[trigger] ordered[black_n + k] == whites[k],
            decreases white_n - j,
        {
            ordered.push(whites[j]);
            j += 1;
        }
        let half = (n_pawns + 1) / 2;
        let ghost mut perm: Seq<int> = bperm + wperm;
        let ghost mut cinv: Seq<int> = Seq::new(
            n_pawns as nat,
            |j: int|
                if pawns[j].1 == PawnColor::Black {
                    inv[j]
                } else {
                    black_n + inv[j]
                },
        );
        proof {
            assert(black_n == half);
            assert forall|k: int| 0 <= k < n_pawns implies 0 <= #[trigger] perm[k] < n_pawns
                && ordered[k] == pawns[perm[k]] && cinv[perm[k]] == k && ordered[k].1 == swap_color(
                k,
                0,
                half as int,
            ) by {
                if k < black_n {
                    assert(perm[k] == bperm[k]);
                    assert(ordered[k] == blacks[k]);
                } else {
                    assert(perm[k] == wperm[k - black_n]);
                    assert(ordered[black_n + (k - black_n)] == whites[k - black_n]);
                }
            }
            assert forall|j: int| 0 <= j < n_pawns implies 0 <= #[trigger] cinv[j] < n_pawns
                && perm[cinv[j]] == j by {
                if pawns[j].1 == PawnColor::Black {
                    assert(perm[inv[j]] == bperm[inv[j]]);
                } else {
                    assert(perm[black_n + inv[j]] == wperm[inv[j]]);
                }
            }
        }
        // Swap white pawns into the odd indices.
        let mut i: usize = 0;
        while i < (n_pawns - 1) / 2
            invariant
                ordered.len() == n_pawns,
                n_pawns == pawns.len(),
                1 <= n_pawns <= N,
                half == (n_pawns + 1) / 2,
                i <= (n_pawns - 1) / 2,
                perm.len() == n_pawns,
                cinv.len() == n_pawns,
                forall|k: int|
                    0 <= k < n_pawns ==> 0 <= #[trigger] perm[k] < n_pawns && ordered[k] == pawns[perm[k]]
                        && cinv[perm[k]] == k && ordered[k].1 == swap_color(k, i as int, half as int),
                forall|j: int| 0 <= j < n_pawns ==> 0 <= #[trigger] cinv[j] < n_pawns && perm[cinv[j]] == j,
            decreases (n_pawns - 1) / 2 - i,
        {
            let ia = 2 * i + 1;
            let ib = half + i;
            let a = ordered[ia];
            let b = ordered[ib];
            ordered.set(ia, b);
            ordered.set(ib, a);
            proof {
                let pa = perm[ia as int];
                let pb = perm[ib as int];
                let old_perm = perm;
                let old_cinv = cinv;
                perm = perm.update(ia as int, pb).update(ib as int, pa);
                cinv = cinv.update(pa, ib as int).update(pb, ia as int);
                assert forall|k: int| 0 <= k < n_pawns implies 0 <= #[trigger] perm[k] < n_pawns
                    && ordered[k] == pawns[perm[k]] && cinv[perm[k]] == k && ordered[k].1
                    == swap_color(k, i + 1, half as int) by {
                    if k != ia && k != ib {
                        assert(old_perm[k] != pa && old_perm[k] != pb);
                    }
                }
                assert forall|k: int| 0 <= k < n_pawns implies ordered[k].1
                    == swap_color(k, i + 1, half as int) by {
                    assert(0 <= perm[k] < n_pawns);
                }
                assert forall|j: int| 0 <= j < n_pawns implies 0 <= #[trigger] cinv[j] < n_pawns
                    && perm[cinv[j]] == j by {
                    if j != pa && j != pb {
                        assert(old_cinv[j] != ia && old_cinv[j] != ib);
                    }
                }
            }
            i += 1;
        }
        let mut indexes: Vec<PackedIdx> = Vec::new();
        let mut i: usize = 0;
        while i < n_pawns
            invariant
                i <= n_pawns,
                n_pawns == pawns.len(),
                ordered.len() == n_pawns,
                indexes.len() == i,
                valid_width(N as int),
                forall|j: int|
                    0 <= j < pawns.len() ==> min_x <= #[trigger] pawns[j].0.x && min_y <= pawns[j].0.y
                        && pawns[j].0.x - min_x < N - 1 && pawns[j].0.y - min_y < N - 1,
                forall|k: int| 0 <= k < n_pawns ==> 0 <= #[trigger] perm[k] < n_pawns && ordered[k] == pawns[perm[k]],
                forall|k: int|
                    0 <= k < i ==> (#[trigger] indexes[k]).sx() == ordered[k].0.x - min_x + 1
                        && indexes[k].sy() == ordered[k].0.y - min_y + 1,
            decreases n_pawns - i,
        {
            let pos = ordered[i].0;
            proof {
                assert(ordered[i as int] == pawns[perm[i as int]]);
            }
            indexes.push(PackedIdx::new((pos.x - min_x + 1) as u32, (pos.y - min_y + 1) as u32));
            i += 1;
        }
        let r = Self::from_indexes(&indexes);
        proof {
            Self::lemma_from_pawns_result(
                pawns@,
                ordered@,
                indexes@,
                perm,
                cinv,
                min_x as int,
                min_y as int,
                r,
            );
        }
        match r {
            Some(g) => Ok(g),
            None => Err("Pawns cannot be placed: two share a tile, or they reach the far border.".to_owned()),
        }
    }
}


/// Each pawn placed passes the turn to the other player, black first: a game
/// built from `pawns` has black to move exactly when an even number of pawns
/// was placed, in either phase; so placing one more pawn gives the move to
/// the other player.
pub proof fn lemma_from_indexes_turn<const N: usize>(
    p1: &Vec<PackedIdx>,
    r1: Option<OnoroImpl<N>>,
    p2: &Vec<PackedIdx>,
    r2: Option<OnoroImpl<N>>,
)
    requires
        call_ensures(OnoroImpl::<N>::from_indexes, (p1,), r1),
        call_ensures(OnoroImpl::<N>::from_indexes, (p2,), r2),
        r1 is Some,
        r2 is Some,
        p2@ == p1@.push(p2@.last()),
    ensures
        r1->Some_0.st().black_turn_spec() <==> p1.len() % 2 == 0,
        r2->Some_0.st().black_turn_spec() == !r1->Some_0.st().black_turn_spec(),
{
}
} // verus!
