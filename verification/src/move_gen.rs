use vstd::prelude::*;

use crate::hex_pos::adjacent_spec;
use crate::onoro::Move;
use crate::onoro_impl::OnoroImpl;
use crate::packed_idx::PackedIdx;

verus! {

broadcast use {PackedIdx::lemma_raw, vstd::seq_lib::lemma_seq_contains_after_push};

/// Pawns `a` and `b` are on neighboring tiles.
pub open spec fn pawns_adjacent(a: PackedIdx, b: PackedIdx) -> bool {
    adjacent_spec(a.sx(), a.sy(), b.sx(), b.sy())
}

/// The number of the first `k` pawns of `s`, other than pawn `skip`, on a
/// tile next to (x, y).
pub open spec fn adj_count(s: Seq<PackedIdx>, k: int, skip: int, x: int, y: int) -> int
    decreases k,
{
    if k <= 0 {
        0
    } else {
        adj_count(s, k - 1, skip, x, y) + if k - 1 != skip && adjacent_spec(
            s[k - 1].sx(),
            s[k - 1].sy(),
            x,
            y,
        ) {
            1int
        } else {
            0int
        }
    }
}

/// One of the first `n` pawns of `s` is on (x, y).
pub open spec fn occupied(s: Seq<PackedIdx>, n: int, x: int, y: int) -> bool {
    exists|i: int| 0 <= i < n && #[trigger] s[i].sx() == x && s[i].sy() == y
}

/// The pawns, among the first `n` of `s`, reachable from pawn 0 in at most
/// `r` steps from a pawn to a neighboring one.
pub open spec fn reach(s: Seq<PackedIdx>, n: int, r: nat) -> Set<int>
    decreases r,
{
    if r == 0 {
        set![0int]
    } else {
        let prev = reach(s, n, (r - 1) as nat);
        prev.union(
            Set::new(
                |j: int|
                    0 <= j < n && exists|i: int|
                        0 <= i < n && prev.contains(i) && #[trigger] pawns_adjacent(s[i], s[j]),
            ),
        )
    }
}

/// The first `n` pawns of `s` form one group of neighboring pawns.
pub open spec fn connected(s: Seq<PackedIdx>, n: int) -> bool {
    forall|j: int| 0 <= j < n ==> #[trigger] reach(s, n, n as nat).contains(j)
}

/// The step from `k` to `k + 1` steps reaches no new pawn.
pub open spec fn reach_stalls(s: Seq<PackedIdx>, n: int, k: int) -> bool {
    reach(s, n, (k + 1) as nat) == reach(s, n, k as nat)
}

/// Pawn 0 is reached in any number of steps, and only pawns among the first
/// `n` are.
pub proof fn lemma_reach_range(s: Seq<PackedIdx>, n: int, r: nat)
    requires
        1 <= n,
    ensures
        reach(s, n, r).contains(0),
        reach(s, n, r).subset_of(vstd::set_lib::set_int_range(0, n)),
    decreases r,
{
    if r > 0 {
        lemma_reach_range(s, n, (r - 1) as nat);
    }
}

/// More steps reach at least the same pawns.
pub proof fn lemma_reach_grows(s: Seq<PackedIdx>, n: int, a: nat, b: nat)
    requires
        a <= b,
    ensures
        reach(s, n, a).subset_of(reach(s, n, b)),
    decreases b - a,
{
    if a < b {
        lemma_reach_grows(s, n, a, (b - 1) as nat);
    }
}

/// Once a step reaches no new pawn, no later step does.
proof fn lemma_reach_stable(s: Seq<PackedIdx>, n: int, k: nat, m: nat)
    requires
        k <= m,
        reach_stalls(s, n, k as int),
    ensures
        reach(s, n, m) == reach(s, n, k),
    decreases m - k,
{
    if m > k {
        lemma_reach_stable(s, n, k, (m - 1) as nat);
        assert(reach(s, n, m) =~= reach(s, n, (k + 1) as nat));
    }
}

/// While every step reaches a new pawn, `k` steps reach at least `k + 1`
/// pawns.
proof fn lemma_reach_size(s: Seq<PackedIdx>, n: int, k: nat)
    requires
        1 <= n,
        forall|j: int| 0 <= j < k ==> !#[trigger] reach_stalls(s, n, j),
    ensures
        reach(s, n, k).finite(),
        reach(s, n, k).len() >= k + 1,
    decreases k,
{
    vstd::set_lib::lemma_int_range(0, n);
    lemma_reach_range(s, n, k);
    vstd::set_lib::lemma_len_subset(reach(s, n, k), vstd::set_lib::set_int_range(0, n));
    if k == 0 {
        assert(reach(s, n, 0) =~= set![0int]);
    } else {
        let p = (k - 1) as nat;
        lemma_reach_size(s, n, p);
        assert(!reach_stalls(s, n, p as int));
        lemma_reach_grows(s, n, p, k);
        vstd::set_lib::lemma_len_subset(reach(s, n, p), reach(s, n, k));
        if reach(s, n, p).len() == reach(s, n, k).len() {
            vstd::set_lib::lemma_subset_equality(reach(s, n, p), reach(s, n, k));
        }
    }
}

/// The pawns reached in `n` steps are closed under adjacency: a neighbor of
/// one of them is one of them.
pub proof fn lemma_reach_closed(s: Seq<PackedIdx>, n: int, i: int, j: int)
    requires
        1 <= n,
        0 <= i < n,
        0 <= j < n,
        reach(s, n, n as nat).contains(i),
        pawns_adjacent(s[i], s[j]),
    ensures
        reach(s, n, n as nat).contains(j),
{
    let full = vstd::set_lib::set_int_range(0, n);
    assert(reach(s, n, (n + 1) as nat).contains(j));
    if exists|k: int| 0 <= k < n && #[trigger] reach_stalls(s, n, k) {
        let k = choose|k: int| 0 <= k < n && #[trigger] reach_stalls(s, n, k);
        lemma_reach_stable(s, n, k as nat, n as nat);
        lemma_reach_stable(s, n, k as nat, (n + 1) as nat);
    } else {
        let p = (n - 1) as nat;
        lemma_reach_size(s, n, p);
        lemma_reach_range(s, n, p);
        lemma_reach_range(s, n, (n + 1) as nat);
        vstd::set_lib::lemma_int_range(0, n);
        vstd::set_lib::lemma_len_subset(reach(s, n, p), full);
        vstd::set_lib::lemma_subset_equality(reach(s, n, p), full);
        lemma_reach_grows(s, n, p, n as nat);
        assert(full.contains(j));
    }
}

/// A label shared by every two neighboring pawns is shared by every pawn
/// reached from pawn 0.
pub proof fn lemma_reach_label(s: Seq<PackedIdx>, n: int, lab: spec_fn(int) -> int, k: nat)
    requires
        forall|i: int, j: int|
            0 <= i < n && 0 <= j < n && #[trigger] pawns_adjacent(s[i], s[j]) ==> lab(i) == lab(j),
    ensures
        forall|j: int| #[trigger] reach(s, n, k).contains(j) ==> lab(j) == lab(0),
    decreases k,
{
    if k > 0 {
        lemma_reach_label(s, n, lab, (k - 1) as nat);
        let prev = reach(s, n, (k - 1) as nat);
        assert forall|j: int| #[trigger] reach(s, n, k).contains(j) implies lab(j) == lab(0) by {
            if !prev.contains(j) {
                let i = choose|i: int|
                    0 <= i < n && prev.contains(i) && #[trigger] pawns_adjacent(s[i], s[j]);
                assert(lab(i) == lab(0));
            }
        }
    }
}

/// A new pawn can be placed on `to`: the tile is empty and next to at least
/// two pawns.
pub open spec fn placement<const N: usize>(o: OnoroImpl<N>, to: PackedIdx) -> bool {
    &&& !occupied(o.poses(), o.n_spec(), to.sx(), to.sy())
    &&& adj_count(o.poses(), o.n_spec(), -1, to.sx(), to.sy()) >= 2
}

/// The parity of the indices of the pawns of the player to move.
pub open spec fn mover_parity<const N: usize>(o: OnoroImpl<N>) -> int {
    if o.st().black_turn_spec() {
        0
    } else {
        1
    }
}

/// Moving pawn `k` to (x, y) is a move of the second phase: the pawn belongs
/// to the player to move, the tile is empty and next to two other pawns,
/// every neighbor of the pawn with only two neighbors is next to the tile,
/// and the pawns stay one group.
pub open spec fn p2_legal<const N: usize>(o: OnoroImpl<N>, k: int, to: PackedIdx) -> bool {
    let s = o.poses();
    let n = o.n_spec();
    &&& 0 <= k < n
    &&& k % 2 == mover_parity(o)
    &&& !occupied(s, n, to.sx(), to.sy())
    &&& adj_count(s, n, k, to.sx(), to.sy()) >= 2
    &&& forall|j: int|
        0 <= j < n && j != k && #[trigger] pawns_adjacent(s[j], s[k]) && adj_count(
            s,
            n,
            -1,
            s[j].sx(),
            s[j].sy(),
        ) == 2 ==> pawns_adjacent(s[j], to)
    &&& connected(s.update(k, to), n)
}

/// `m` is a legal move of the game state `o`.
pub open spec fn legal_move<const N: usize>(o: OnoroImpl<N>, m: Move) -> bool {
    let s = o.poses();
    let n = o.n_spec();
    match m {
        Move::Phase1Move { to } => {
            &&& o.in_phase1_spec()
            &&& !occupied(s, n, to.sx(), to.sy())
            &&& adj_count(s, n, -1, to.sx(), to.sy()) >= 2
        },
        Move::Phase2Move { to, from_idx } => {
            &&& !o.in_phase1_spec()
            &&& p2_legal(o, from_idx as int, to)
        },
    }
}

impl<const N: usize> OnoroImpl<N> {
    /// The number of pawns, other than pawn `skip`, next to (x, y).
    fn adjacent_pawns(&self, skip: usize, x: i32, y: i32) -> (r: u32)
        requires
            self.wf(),
            -64 <= x <= 64,
            -64 <= y <= 64,
        ensures
            r == adj_count(self.poses(), self.n_spec(), skip as int, x as int, y as int),
    {
        let n = self.pawns_in_play() as usize;
        let mut count: u32 = 0;
        let mut i: usize = 0;
        while i < n
            invariant
                self.wf(),
                n == self.n_spec(),
                -64 <= x <= 64,
                -64 <= y <= 64,
                i <= n,
                count == adj_count(self.poses(), i as int, skip as int, x as int, y as int),
                count <= i,
            decreases n - i,
        {
            let p = self.pawn_poses()[i];
            if i != skip {
                let dx = x - p.x() as i32;
                let dy = y - p.y() as i32;
                if (dx == 1 && dy == 0) || (dx == 1 && dy == 1) || (dx == 0 && dy == 1) || (dx == -1
                    && dy == 0) || (dx == -1 && dy == -1) || (dx == 0 && dy == -1) {
                    count += 1;
                }
            }
            i += 1;
        }
        count
    }

    /// Whether a pawn is on (x, y).
    fn is_occupied(&self, x: i32, y: i32) -> (r: bool)
        requires
            self.wf(),
        ensures
            r == occupied(self.poses(), self.n_spec(), x as int, y as int),
    {
        let n = self.pawns_in_play() as usize;
        let mut i: usize = 0;
        while i < n
            invariant
                self.wf(),
                n == self.n_spec(),
                i <= n,
                forall|j: int|
                    0 <= j < i ==> !(#[trigger] self.poses()[j].sx() == x && self.poses()[j].sy()
                        == y),
            decreases n - i,
        {
            let p = self.pawn_poses()[i];
            if p.x() as i32 == x && p.y() as i32 == y {
                return true;
            }
            i += 1;
        }
        false
    }
}

/// Whether the first `n` pawns of `s` form one group.
fn is_connected(s: &Vec<PackedIdx>, n: usize) -> (r: bool)
    requires
        n <= s.len(),
    ensures
        r == connected(s@, n as int),
{
    if n == 0 {
        return true;
    }
    let mut visited: Vec<bool> = Vec::new();
    let mut j: usize = 0;
    while j < n
        invariant
            j <= n,
            visited.len() == j,
            forall|i: int| 0 <= i < j ==> visited[i] == reach(s@, n as int, 0).contains(i),
        decreases n - j,
    {
        visited.push(j == 0);
        j += 1;
    }
    let mut r: usize = 0;
    while r < n
        invariant
            1 <= n <= s.len(),
            r <= n,
            visited.len() == n,
            forall|i: int|
                0 <= i < n ==> #[trigger] visited[i] == reach(s@, n as int, r as nat).contains(i),
        decreases n - r,
    {
        let ghost prev = reach(s@, n as int, r as nat);
        let mut next: Vec<bool> = Vec::new();
        let mut b: usize = 0;
        while b < n
            invariant
                1 <= n <= s.len(),
                b <= n,
                next.len() == b,
                visited.len() == n,
                forall|i: int| 0 <= i < n ==> #[trigger] visited[i] == prev.contains(i),
                prev == reach(s@, n as int, r as nat),
                forall|i: int|
                    0 <= i < b ==> #[trigger] next[i] == reach(s@, n as int, (r + 1) as nat).contains(
                        i,
                    ),
            decreases n - b,
        {
            let mut found = visited[b];
            let mut a: usize = 0;
            while a < n
                invariant
                    1 <= n <= s.len(),
                    a <= n,
                    b < n,
                    visited.len() == n,
                    forall|i: int| 0 <= i < n ==> #[trigger] visited[i] == prev.contains(i),
                    found == (prev.contains(b as int) || exists|i: int|
                        0 <= i < a && prev.contains(i) && #[trigger] pawns_adjacent(
                            s@[i],
                            s@[b as int],
                        )),
                decreases n - a,
            {
                let adj = s[a].adjacent(&s[b]);
                if visited[a] && adj {
                    proof {
                        assert(prev.contains(a as int));
                        assert(pawns_adjacent(s@[a as int], s@[b as int]));
                    }
                    found = true;
                }
                a += 1;
            }
            proof {
                let nxt = reach(s@, n as int, (r + 1) as nat);
                assert(nxt.contains(b as int) == found);
            }
            next.push(found);
            b += 1;
        }
        visited = next;
        r += 1;
    }
    let ghost nn: int = n as int;
    assert(r == n);
    assert(forall|i: int| 0 <= i < n ==> #[trigger] visited[i] == reach(s@, nn, nn as nat).contains(i));
    let mut j: usize = 0;
    while j < n
        invariant
            j <= n,
            nn == n,
            visited.len() == n,
            forall|i: int| 0 <= i < n ==> #[trigger] visited[i] == reach(s@, nn, nn as nat).contains(i),
            forall|i: int| 0 <= i < j ==> #[trigger] reach(s@, nn, nn as nat).contains(i),
        decreases n - j,
    {
        if !visited[j] {
            assert(!reach(s@, nn, nn as nat).contains(j as int));
            assert(!connected(s@, nn));
            return false;
        }
        j += 1;
    }
    true
}

/// No pawn is counted at a tile off of a board of width `w` whose pawns are
/// all off of its border, and the pawn to skip may be named by `-1` or by an
/// index past the pawns.
proof fn lemma_adj_count(s: Seq<PackedIdx>, k: int, skip: int, x: int, y: int, w: int)
    requires
        0 <= k <= s.len(),
        forall|i: int| 0 <= i < k ==> 1 <= #[trigger] s[i].sx() <= w - 2 && 1 <= s[i].sy() <= w - 2,
    ensures
        (x >= w || y >= w || x < 0 || y < 0) ==> adj_count(s, k, skip, x, y) == 0,
        skip >= k ==> adj_count(s, k, skip, x, y) == adj_count(s, k, -1, x, y),
        0 <= adj_count(s, k, skip, x, y) <= k,
    decreases k,
{
    if k > 0 {
        lemma_adj_count(s, k - 1, skip, x, y, w);
    }
}

/// The move `m` is placed before the tile (x, y), ordering tiles by y and
/// then x.
pub open spec fn move_before(m: Move, x: int, y: int) -> bool {
    let to = match m {
        Move::Phase1Move { to } => to,
        Move::Phase2Move { to, from_idx: _ } => to,
    };
    to.sy() < y || (to.sy() == y && to.sx() < x)
}

impl<const N: usize> OnoroImpl<N> {
    /// Whether moving pawn `k`, of the player to move, to the empty tile `to`
    /// is a move of the second phase.
    fn p2_valid(&self, k: usize, to: PackedIdx) -> (r: bool)
        requires
            self.wf(),
            !self.in_phase1_spec(),
            k < self.n_spec(),
            k % 2 == mover_parity(*self),
            !occupied(self.poses(), self.n_spec(), to.sx(), to.sy()),
        ensures
            r == p2_legal(*self, k as int, to),
    {
        let n = self.pawns_in_play() as usize;
        let poses = self.pawn_poses();
        proof {
            to.lemma_raw();
        }
        // The pawn needs two neighbors at its new tile, not counting itself.
        if self.adjacent_pawns(k, to.x() as i32, to.y() as i32) < 2 {
            return false;
        }
        // Every neighbor of the pawn with only two neighbors must stay next
        // to it.
        let pk = poses[k];
        let mut j: usize = 0;
        while j < n
            invariant
                self.wf(),
                n == self.n_spec(),
                poses@ == self.poses(),
                k < n,
                pk == poses[k as int],
                j <= n,
                forall|i: int|
                    0 <= i < j && i != k && #[trigger] pawns_adjacent(poses[i], poses[k as int])
                        && adj_count(poses@, n as int, -1, poses[i].sx(), poses[i].sy()) == 2
                        ==> pawns_adjacent(poses[i], to),
            decreases n - j,
        {
            let pj = poses[j];
            proof {
                pj.lemma_raw();
                lemma_adj_count(poses@, n as int, N as int, pj.sx(), pj.sy(), N as int);
            }
            if j != k && pk.adjacent(&pj) && self.adjacent_pawns(N, pj.x() as i32, pj.y() as i32)
                == 2 && !pj.adjacent(&to) {
                proof {
                    assert(pawns_adjacent(poses[j as int], poses[k as int]));
                }
                return false;
            }
            j += 1;
        }
        // The pawns must stay one group.
        let mut moved: Vec<PackedIdx> = Vec::new();
        let mut i: usize = 0;
        while i < poses.len()
            invariant
                i <= poses.len(),
                k < poses.len(),
                moved.len() == i,
                forall|t: int| 0 <= t < i ==> moved[t] == poses@.update(k as int, to)[t],
            decreases poses.len() - i,
        {
            if i == k {
                moved.push(to);
            } else {
                moved.push(poses[i]);
            }
            i += 1;
        }
        assert(moved@ =~= poses@.update(k as int, to));
        is_connected(&moved, n)
    }

    /// The placements of a new pawn on an empty tile next to at least two
    /// pawns, in order of the tiles' y- and then x-coordinates, whatever the
    /// phase of the game.
    pub fn p1_moves(&self) -> (r: Vec<Move>)
        requires
            self.wf(),
        ensures
            forall|m: Move|
                r@.contains(m) <==> (m matches Move::Phase1Move { to } && placement(*self, to)),
            r@.no_duplicates(),
    {
        let mut moves: Vec<Move> = Vec::new();
        let mut y: u32 = 0;
        while y < N as u32
            invariant
                self.wf(),
                y <= N,
                forall|m: Move|
                    moves@.contains(m) <==> (m matches Move::Phase1Move { to } && placement(
                        *self,
                        to,
                    ) && move_before(m, 0, y as int)),
                moves@.no_duplicates(),
                forall|i: int| 0 <= i < moves.len() ==> move_before(#[trigger] moves@[i], 0, y as int),
            decreases N - y,
        {
            let mut x: u32 = 0;
            while x < N as u32
                invariant
                    self.wf(),
                    y < N,
                    x <= N,
                    forall|m: Move|
                        moves@.contains(m) <==> (m matches Move::Phase1Move { to } && placement(
                            *self,
                            to,
                        ) && move_before(m, x as int, y as int)),
                    moves@.no_duplicates(),
                    forall|i: int|
                        0 <= i < moves.len() ==> move_before(#[trigger] moves@[i], x as int, y as int),
                decreases N - x,
            {
                let to = PackedIdx::new(x, y);
                let ghost before = moves@;
                let free = !self.is_occupied(x as i32, y as i32);
                let fits = free && self.adjacent_pawns(N, x as i32, y as i32) >= 2;
                proof {
                    lemma_adj_count(self.poses(), self.n_spec(), N as int, x as int, y as int, N as int);
                }
                if fits {
                    proof {
                        assert(!before.contains(Move::Phase1Move { to }));
                    }
                    moves.push(Move::Phase1Move { to });
                }
                proof {
                    assert forall|m: Move|
                        moves@.contains(m) <==> (m matches Move::Phase1Move { to: t } && placement(
                            *self,
                            t,
                        ) && move_before(m, x + 1, y as int)) by {
                        if let Move::Phase1Move { to: t } = m {
                            t.lemma_coords_eq(to);
                            if moves@.contains(m) && !before.contains(m) {
                                assert(m == Move::Phase1Move { to });
                            }
                        }
                    }
                    assert forall|i: int| 0 <= i < moves.len() implies move_before(
                        #[trigger] moves@[i],
                        x + 1,
                        y as int,
                    ) by {
                        if i < before.len() {
                            assert(moves@[i] == before[i]);
                        }
                    }
                }
                x += 1;
            }
            proof {
                assert forall|m: Move|
                    moves@.contains(m) <==> (m matches Move::Phase1Move { to: t } && placement(
                        *self,
                        t,
                    ) && move_before(m, 0, y + 1)) by {
                    if let Move::Phase1Move { to: t } = m {
                        lemma_adj_count(self.poses(), self.n_spec(), -1, t.sx(), t.sy(), N as int);
                        lemma_adj_count(self.poses(), self.n_spec(), N as int, t.sx(), t.sy(), N as int);
                    }
                }
                assert forall|i: int| 0 <= i < moves.len() implies move_before(
                    #[trigger] moves@[i],
                    0,
                    y + 1,
                ) by {
                    assert(move_before(moves@[i], N as int, y as int));
                }
            }
            y += 1;
        }
        proof {
            assert forall|m: Move|
                moves@.contains(m) <==> (m matches Move::Phase1Move { to } && placement(*self, to)) by {
                if let Move::Phase1Move { to: t } = m {
                    lemma_adj_count(self.poses(), self.n_spec(), -1, t.sx(), t.sy(), N as int);
                    lemma_adj_count(self.poses(), self.n_spec(), N as int, t.sx(), t.sy(), N as int);
                }
            }
        }
        moves
    }

    /// The legal moves of the game: in the first phase, placing a pawn on any
    /// empty tile next to two pawns; in the second, moving a pawn of the
    /// player to move to such a tile, next to two pawns other than itself,
    /// without leaving a neighbor of it with fewer than two neighbors and
    /// keeping the pawns one group.
    pub fn each_move(&self) -> (r: Vec<Move>)
        requires
            self.wf(),
        ensures
            forall|m: Move| r@.contains(m) <==> legal_move(*self, m),
            r@.no_duplicates(),
    {
        let n = self.pawns_in_play() as usize;
        let phase1 = self.in_phase1();
        let par: usize = if self.onoro_state().black_turn() {
            0
        } else {
            1
        };
        let mut moves: Vec<Move> = Vec::new();
        let mut y: u32 = 0;
        while y < N as u32
            invariant
                self.wf(),
                n == self.n_spec(),
                phase1 == self.in_phase1_spec(),
                par == mover_parity(*self),
                y <= N,
                forall|m: Move|
                    moves@.contains(m) <==> legal_move(*self, m) && move_before(m, 0, y as int),
                moves@.no_duplicates(),
            decreases N - y,
        {
            let mut x: u32 = 0;
            while x < N as u32
                invariant
                    self.wf(),
                    n == self.n_spec(),
                    phase1 == self.in_phase1_spec(),
                    par == mover_parity(*self),
                    y < N,
                    x <= N,
                    forall|m: Move|
                        moves@.contains(m) <==> legal_move(*self, m) && move_before(
                            m,
                            x as int,
                            y as int,
                        ),
                    moves@.no_duplicates(),
                decreases N - x,
            {
                let to = PackedIdx::new(x, y);
                let ghost before = moves@;
                let occ = self.is_occupied(x as i32, y as i32);
                if !occ {
                    if phase1 {
                        if self.adjacent_pawns(N, x as i32, y as i32) >= 2 {
                            proof {
                                if before.contains(Move::Phase1Move { to }) {
                                    assert(move_before(Move::Phase1Move { to }, x as int, y as int));
                                }
                            }
                            moves.push(Move::Phase1Move { to });
                        }
                        proof {
                            lemma_adj_count(self.poses(), n as int, N as int, x as int, y as int, N as int);
                        }
                    } else {
                        let mut k: usize = par;
                        while k < n
                            invariant
                                self.wf(),
                                n == self.n_spec(),
                                !self.in_phase1_spec(),
                                par == mover_parity(*self),
                                k % 2 == par,
                                !occupied(self.poses(), n as int, x as int, y as int),
                                to.sx() == x && to.sy() == y,
                                forall|m: Move|
                                    moves@.contains(m) <==> legal_move(*self, m) && (move_before(
                                        m,
                                        x as int,
                                        y as int,
                                    ) || (m matches Move::Phase2Move { to: t, from_idx: f } && t
                                        == to && f < k)),
                                moves@.no_duplicates(),
                            decreases n + 2 - k,
                        {
                            let valid = self.p2_valid(k, to);
                            let ghost inner_before = moves@;
                            if valid {
                                proof {
                                    let nm = Move::Phase2Move { to, from_idx: k as u32 };
                                    if inner_before.contains(nm) {
                                        assert(move_before(nm, x as int, y as int));
                                    }
                                }
                                moves.push(Move::Phase2Move { to, from_idx: k as u32 });
                            }
                            proof {
                                assert forall|m: Move|
                                    moves@.contains(m) <==> legal_move(*self, m) && (move_before(
                                        m,
                                        x as int,
                                        y as int,
                                    ) || (m matches Move::Phase2Move { to: t, from_idx: f } && t
                                        == to && f < k + 2)) by {
                                    if let Move::Phase2Move { to: t, from_idx: f } = m {
                                        if t == to && f == k + 1 {
                                            assert(!legal_move(*self, m));
                                        }
                                        if t == to && f == k {
                                            assert(legal_move(*self, m) == valid);
                                        }
                                    }
                                }
                            }
                            k += 2;
                        }
                    }
                }
                proof {
                    assert forall|m: Move|
                        moves@.contains(m) <==> legal_move(*self, m) && move_before(
                            m,
                            x + 1,
                            y as int,
                        ) by {
                        let t = match m {
                            Move::Phase1Move { to } => to,
                            Move::Phase2Move { to, from_idx: _ } => to,
                        };
                        t.lemma_coords_eq(to);
                        if t == to {
                            if occ {
                                assert(occupied(self.poses(), n as int, t.sx(), t.sy()));
                                assert(!legal_move(*self, m));
                                assert(moves@ == before);
                            }
                        }
                    }
                }
                x += 1;
            }
            proof {
                assert forall|m: Move|
                    moves@.contains(m) <==> legal_move(*self, m) && move_before(m, 0, y + 1) by {
                    let t = match m {
                        Move::Phase1Move { to } => to,
                        Move::Phase2Move { to, from_idx: _ } => to,
                    };
                    lemma_adj_count(self.poses(), n as int, -1, t.sx(), t.sy(), N as int);
                    if let Move::Phase2Move { to: _, from_idx: f } = m {
                        lemma_adj_count(self.poses(), n as int, f as int, t.sx(), t.sy(), N as int);
                    }
                }
            }
            y += 1;
        }
        proof {
            assert forall|m: Move| moves@.contains(m) <==> legal_move(*self, m) by {
                let t = match m {
                    Move::Phase1Move { to } => to,
                    Move::Phase2Move { to, from_idx: _ } => to,
                };
                lemma_adj_count(self.poses(), n as int, -1, t.sx(), t.sy(), N as int);
                if let Move::Phase2Move { to: _, from_idx: f } = m {
                    lemma_adj_count(self.poses(), n as int, f as int, t.sx(), t.sy(), N as int);
                }
            }
        }
        moves
    }
}

} // verus!
