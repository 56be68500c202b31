use onoro::board_vec_indexer::{
  determine_basis, packed_positions_coord_limits, Basis, BoardVecIndexer, DetermineBasisOutput,
};
use onoro::hex_pos::{HexPos, HexPosOffset};
use onoro::packed_idx::PackedIdx;

/// The number of steps between two tiles of the hexagonal grid.
fn axial_distance(p1: PackedIdx, p2: PackedIdx) -> u32 {
  let dx = p1.x() as i32 - p2.x() as i32;
  let dy = p1.y() as i32 - p2.y() as i32;
  dx.unsigned_abs().max(dy.unsigned_abs()).max((dx - dy).unsigned_abs())
}

fn each_index(n: u32) -> impl Iterator<Item = PackedIdx> {
  (1..(n - 1)).flat_map(move |y| (1..(n - 1)).map(move |x| PackedIdx::new(x, y)))
}

fn each_corner(n: u32) -> impl Iterator<Item = (PackedIdx, PackedIdx)> {
  each_index(n)
    .flat_map(move |p1| each_index(n).map(move |p2| (p1, p2)))
    .filter(move |&(p1, p2)| p1 != p2 && axial_distance(p1, p2) <= n - 3)
}

fn indexer_of(p1: PackedIdx, p2: PackedIdx) -> (BoardVecIndexer, bool) {
  const N: usize = 16;
  let mut coord_poses = vec![PackedIdx::null(); N];
  coord_poses[0] = p1;
  coord_poses[1] = p2;
  let coord_limits = packed_positions_coord_limits::<N>(&coord_poses);

  let DetermineBasisOutput {
    basis,
    corner,
    width,
    use_u128,
  } = determine_basis::<N>(coord_limits);
  (BoardVecIndexer::new(basis, corner, width), use_u128)
}

#[test]
fn test_determine_basis() {
  const N: u32 = 16;
  for (p1, p2) in each_corner(N) {
    let (indexer, use_u128) = indexer_of(p1, p2);

    let width = indexer.width as u32;
    let bits = if use_u128 { u128::BITS } else { u64::BITS };
    assert!(indexer.index(p1) > width);
    assert!(indexer.index(p1) < bits - width);
    assert!(indexer.index(p2) < bits - width);
  }
}

fn min_bb_area_with_padding(p1: PackedIdx, p2: PackedIdx) -> u64 {
  let x1 = p1.x() as i32;
  let y1 = p1.y() as i32;
  let x2 = p2.x() as i32;
  let y2 = p2.y() as i32;
  let dx = (x1 - x2).unsigned_abs() as u64 + 3;
  let dy = (y1 - y2).unsigned_abs() as u64 + 3;
  let dxy = ((y1 - x1) - (y2 - x2)).unsigned_abs() as u64 + 3;
  dx * dy * dxy / dx.max(dy).max(dxy)
}

fn check_is_bijection(indexer: &BoardVecIndexer, p1: PackedIdx, p2: PackedIdx) {
  let mut board_vec: u128 = 0;
  let min_bb_area = min_bb_area_with_padding(p1, p2);
  assert_eq!(min_bb_area % indexer.width as u64, 0);

  let xlim = indexer.width as i32;
  let ylim = (min_bb_area / indexer.width as u64) as i32;
  for y in 0..ylim {
    for x in 0..xlim {
      if (x == 0 && y == ylim - 1) || (x == xlim - 1 && y == 0) {
        continue;
      }
      let offset = match indexer.basis {
        Basis::XvY => HexPosOffset::new(x, y),
        Basis::XvXY => HexPosOffset::new(x - y, x),
        Basis::XYvY => HexPosOffset::new(y, y - x),
      };
      let pos = HexPos::new(
        (indexer.corner.x as i32 + offset.x) as u32,
        (indexer.corner.y as i32 + offset.y) as u32,
      );
      let pos = PackedIdx::from_hex_pos(&pos);

      let index = indexer.index(pos);
      let mask = 1u128 << index;
      assert_eq!(board_vec & mask, 0);
      board_vec |= mask;

      assert_eq!(indexer.pos_from_coords((x as u32, y as u32)), pos);
      assert_eq!(indexer.pos_from_index(index), pos);
    }
  }
}

#[test]
fn test_indexer_bijection() {
  const N: u32 = 16;
  for (p1, p2) in each_corner(N) {
    let (indexer, _) = indexer_of(p1, p2);
    check_is_bijection(&indexer, p1, p2);
  }
}
