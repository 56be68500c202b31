use vstd::prelude::*;

use crate::onoro::{Pawn, PawnColor};
use crate::onoro_impl::OnoroImpl;

verus! {

/// Walks the pawns of a game in order of placement: all of them, or with
/// `ONE_COLOR` only those of one color.
#[derive(Clone, Copy, Debug)]
pub struct PawnGeneratorImpl<const ONE_COLOR: bool, const N: usize> {
    pawn_idx: usize,
}

/// The color of the pawn placed `k`-th: black for even `k`.
pub open spec fn color_of_index(k: int) -> PawnColor {
    if k % 2 == 0 {
        PawnColor::Black
    } else {
        PawnColor::White
    }
}

impl<const ONE_COLOR: bool, const N: usize> PawnGeneratorImpl<ONE_COLOR, N> {
    /// The index of the next pawn.
    pub closed spec fn index(self) -> int {
        self.pawn_idx as int
    }

    /// The next pawn, if the walk has not passed the last pawn of `onoro`.
    pub fn next(&mut self, onoro: &OnoroImpl<N>) -> (r: Option<Pawn>)
        requires
            onoro.wf(),
            old(self).index() <= N,
        ensures
            old(self).index() >= onoro.n_spec() ==> r is None && final(self).index() == old(
                self,
            ).index(),
            old(self).index() < onoro.n_spec() ==> {
                &&& r == Some(
                    Pawn {
                        pos: onoro.poses()[old(self).index()],
                        color: color_of_index(old(self).index()),
                        board_idx: old(self).index() as u8,
                    },
                )
                &&& final(self).index() == old(self).index() + if ONE_COLOR {
                    2int
                } else {
                    1int
                }
            },
    {
        if self.pawn_idx >= onoro.pawns_in_play() as usize {
            return None;
        }
        let color = if self.pawn_idx % 2 == 0 {
            PawnColor::Black
        } else {
            PawnColor::White
        };
        let pawn = Pawn {
            pos: onoro.pawn_poses()[self.pawn_idx],
            color,
            board_idx: self.pawn_idx as u8,
        };
        self.pawn_idx = self.pawn_idx + if ONE_COLOR {
            2
        } else {
            1
        };
        Some(pawn)
    }
}

impl<const N: usize> OnoroImpl<N> {
    /// A walk over all pawns, from the first one placed.
    pub fn pawns_gen(&self) -> (r: PawnGeneratorImpl<false, N>)
        ensures
            r.index() == 0,
    {
        PawnGeneratorImpl { pawn_idx: 0 }
    }

    /// A walk over the pawns of `color`, from the first one placed.
    pub fn color_pawns_gen(&self, color: PawnColor) -> (r: PawnGeneratorImpl<true, N>)
        ensures
            r.index() == match color {
                PawnColor::Black => 0int,
                PawnColor::White => 1int,
            },
    {
        PawnGeneratorImpl {
            pawn_idx: match color {
                PawnColor::Black => 0,
                PawnColor::White => 1,
            },
        }
    }
}

} // verus!
