use onoro::onoro::TileState;
use onoro::onoro_impl::OnoroImpl;
use onoro::packed_idx::PackedIdx;

type Onoro8 = OnoroImpl<8>;
type Onoro16 = OnoroImpl<16>;

/// The tile at `idx`, found by looking for a pawn at `idx`.
fn get_tile_test<const N: usize>(onoro: &OnoroImpl<N>, idx: PackedIdx) -> TileState {
  if idx == PackedIdx::null() {
    return TileState::Empty;
  }

  match onoro
    .pawn_poses()
    .iter()
    .enumerate()
    .find(|&(_, &pos)| pos == idx)
  {
    Some((idx, _)) => {
      if idx % 2 == 0 {
        TileState::Black
      } else {
        TileState::White
      }
    }
    None => TileState::Empty,
  }
}

#[test]
fn test_get_tile_simple() {
  let onoro = Onoro8::default_start();

  for y in 0..Onoro8::board_width() {
    for x in 0..Onoro8::board_width() {
      let idx = PackedIdx::new(x as u32, y as u32);
      assert_eq!(onoro.get_tile(idx), get_tile_test(&onoro, idx));
    }
  }
}

#[test]
fn test_get_tile_simple_16() {
  let onoro = Onoro16::default_start();

  for y in 0..Onoro16::board_width() {
    for x in 0..Onoro16::board_width() {
      let idx = PackedIdx::new(x as u32, y as u32);
      assert_eq!(onoro.get_tile(idx), get_tile_test(&onoro, idx));
    }
  }
}

/// Given a position on the board, returns the index of the pawn on that
/// tile, or `None` if no piece is there.
fn get_pawn_idx_test<const N: usize>(onoro: &OnoroImpl<N>, idx: PackedIdx) -> Option<u32> {
  if idx == PackedIdx::null() {
    return None;
  }

  onoro
    .pawn_poses()
    .iter()
    .enumerate()
    .find_map(|(i, &pos)| (pos == idx).then_some(i as u32))
}

#[test]
fn test_get_pawn_idx_simple() {
  let onoro = Onoro8::default_start();

  for y in 0..Onoro8::board_width() {
    for x in 0..Onoro8::board_width() {
      let idx = PackedIdx::new(x as u32, y as u32);
      if let Some(pawn_idx) = get_pawn_idx_test(&onoro, idx) {
        assert_eq!(onoro.get_pawn_idx(idx), pawn_idx);
      }
    }
  }
}

#[test]
fn test_get_pawn_idx_simple_16() {
  let onoro = Onoro16::default_start();

  for y in 0..Onoro16::board_width() {
    for x in 0..Onoro16::board_width() {
      let idx = PackedIdx::new(x as u32, y as u32);
      if let Some(pawn_idx) = get_pawn_idx_test(&onoro, idx) {
        assert_eq!(onoro.get_pawn_idx(idx), pawn_idx);
      }
    }
  }
}
