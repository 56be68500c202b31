use onoro::groups::SymmetryClass;
use onoro::hex_pos::{HexPos, HexPosOffset};
use onoro::packed_idx::PackedIdx;
use onoro::pawn_list::PawnList8;
use rand::{Rng, RngExt, SeedableRng, rngs::StdRng};

const N: usize = 16;

fn positions(pawn_list: &PawnList8) -> Vec<HexPosOffset> {
  pawn_list.positions().iter().map(|pos| pos.unwrap()).collect()
}

/// Whether the two lists hold the same positions, in any order.
fn equal_ignoring_order<'a>(
  lhs: impl IntoIterator<Item = &'a PackedIdx>,
  rhs: impl IntoIterator<Item = &'a PackedIdx>,
) -> bool {
  let mut lhs: Vec<_> = lhs.into_iter().map(|pos| (pos.x(), pos.y())).collect();
  let mut rhs: Vec<_> = rhs.into_iter().map(|pos| (pos.x(), pos.y())).collect();
  lhs.sort();
  rhs.sort();
  lhs == rhs
}

fn gen_unique_poses<R: Rng>(count: usize, rng: &mut R) -> impl Iterator<Item = PackedIdx> {
  let mut poses = Vec::with_capacity(count);
  for _ in 0..count {
    let pos = loop {
      let pos = PackedIdx::new(rng.random_range(1..15), rng.random_range(1..15));
      if poses.contains(&pos) {
        continue;
      }

      break pos;
    };

    poses.push(pos);
  }

  poses.into_iter()
}

fn randomly_mutate<R: Rng>(poses: &mut [PackedIdx], rng: &mut R) {
  let to_change: Vec<bool> = (0..poses.len()).map(|_| rng.random_bool(0.4)).collect();
  for (i, _) in to_change
    .iter()
    .cloned()
    .enumerate()
    .filter(|&(_, to_change)| to_change)
  {
    let pos = loop {
      let pos = PackedIdx::new(rng.random_range(1..15), rng.random_range(1..15));
      if poses
        .iter()
        .enumerate()
        .find(|&(_, &p)| pos == p)
        .is_some_and(|(idx, _)| idx < i || !to_change[idx])
      {
        continue;
      }

      break pos;
    };

    poses[i] = pos;
  }
}

#[test]
fn fuzz_equals_ignoring_order() {
  const ITERATIONS: u32 = 10_000;

  let mut rng = StdRng::seed_from_u64(19304910);

  for t in 0..ITERATIONS {
    let origin = HexPos::new(rng.random_range(1..15), rng.random_range(1..15));
    let count = if rng.random_bool(0.75) {
      16
    } else {
      rng.random_range(1..=16)
    };

    let mut poses1 = [PackedIdx::null(); N];
    let mut poses2 = [PackedIdx::null(); N];
    for ((pos1, pos2), random_pos) in poses1
      .iter_mut()
      .zip(poses2.iter_mut())
      .zip(gen_unique_poses(N, &mut rng))
      .take(count)
    {
      *pos1 = random_pos;
      *pos2 = random_pos;
    }

    let (black_equal, white_equal) = if rng.random_bool(0.5) {
      (true, true)
    } else {
      // Generate different positions.
      randomly_mutate(&mut poses2[0..count], &mut rng);

      (
        equal_ignoring_order(poses1.iter().step_by(2), poses2.iter().step_by(2)),
        equal_ignoring_order(
          poses1.iter().skip(1).step_by(2),
          poses2.iter().skip(1).step_by(2),
        ),
      )
    };

    // Shuffle the even indices of poses2.
    for i in 2..N {
      let j = 2 * rng.random_range(0..=(i / 2)) + (i % 2);
      poses2.swap(i, j);
    }

    let black_pawns1 = PawnList8::extract_black_pawns(&poses1, origin);
    let black_pawns2 = PawnList8::extract_black_pawns(&poses2, origin);
    assert_eq!(
      black_pawns1.equal_ignoring_order(black_pawns2),
      black_equal,
      "Iteration {t}"
    );

    let white_pawns1 = PawnList8::extract_white_pawns(&poses1, origin);
    let white_pawns2 = PawnList8::extract_white_pawns(&poses2, origin);
    assert_eq!(
      white_pawns1.equal_ignoring_order(white_pawns2),
      white_equal,
      "Iteration {t}"
    );
  }
}

#[test]
fn test_equals_with_zero() {
  let origin = HexPos::new(8, 8);

  let mut poses1 = [PackedIdx::null(); N];
  let mut poses2 = [PackedIdx::null(); N];
  poses1[0] = PackedIdx::new(8, 9);
  poses1[2] = PackedIdx::new(9, 9);
  poses2[0] = PackedIdx::new(8, 9);
  poses2[2] = PackedIdx::new(8, 8);

  let black_pawns1 = PawnList8::extract_black_pawns(&poses1, origin);
  let black_pawns2 = PawnList8::extract_black_pawns(&poses2, origin);
  assert!(!black_pawns1.equal_ignoring_order(black_pawns2));
}

#[test]
fn test_extract() {
  let pawns = [
    PackedIdx::new(1, 8),
    PackedIdx::new(3, 9),
    PackedIdx::new(2, 10),
    PackedIdx::new(4, 11),
    PackedIdx::new(3, 12),
    PackedIdx::new(5, 11),
    PackedIdx::new(4, 10),
    PackedIdx::new(6, 9),
    PackedIdx::new(5, 12),
    PackedIdx::new(7, 11),
    PackedIdx::new(6, 10),
    PackedIdx::new(2, 9),
    PackedIdx::new(7, 8),
    PackedIdx::new(1, 9),
    PackedIdx::new(8, 10),
    PackedIdx::new(2, 11),
  ];

  let black_pawn_list = PawnList8::extract_black_pawns(&pawns, HexPos::new(4, 10));
  let white_pawn_list = PawnList8::extract_white_pawns(&pawns, HexPos::new(4, 10));

  assert_eq!(
    positions(&black_pawn_list),
    vec![
      HexPosOffset::new(-3, -2),
      HexPosOffset::new(-2, 0),
      HexPosOffset::new(-1, 2),
      HexPosOffset::new(0, 0),
      HexPosOffset::new(1, 2),
      HexPosOffset::new(2, 0),
      HexPosOffset::new(3, -2),
      HexPosOffset::new(4, 0),
    ]
  );

  assert_eq!(
    positions(&white_pawn_list),
    vec![
      HexPosOffset::new(-1, -1),
      HexPosOffset::new(0, 1),
      HexPosOffset::new(1, 1),
      HexPosOffset::new(2, -1),
      HexPosOffset::new(3, 1),
      HexPosOffset::new(-2, -1),
      HexPosOffset::new(-3, -1),
      HexPosOffset::new(-2, 1),
    ]
  );
}

#[test]
fn test_rotate_d6_c() {
  for y in 1..=15 {
    let mut poses = [PackedIdx::null(); N];
    for (x, pos) in poses.iter_mut().enumerate() {
      *pos = PackedIdx::new(x.max(1) as u32, y);
    }

    let center = HexPos::new(6, 10);
    let black_pawns = PawnList8::extract_black_pawns(&poses, center);
    let white_pawns = PawnList8::extract_white_pawns(&poses, center);

    for op in onoro::groups::D6::for_each() {
      let op_ord = op.ord();
      let rotated_black = black_pawns.apply(SymmetryClass::C, op_ord);
      let rotated_white = white_pawns.apply(SymmetryClass::C, op_ord);

      let expected_black: Vec<HexPosOffset> = poses
        .iter()
        .step_by(2)
        .map(|&idx| idx.to_hex_pos().sub_hex(&center))
        .map(|pos| pos.apply_d6_c(&op))
        .collect();
      let expected_white: Vec<HexPosOffset> = poses
        .iter()
        .skip(1)
        .step_by(2)
        .map(|&idx| idx.to_hex_pos().sub_hex(&center))
        .map(|pos| pos.apply_d6_c(&op))
        .collect();

      assert_eq!(positions(&rotated_black), expected_black);
      assert_eq!(positions(&rotated_white), expected_white);
    }
  }
}

#[test]
fn test_pawn_indices() {
  for y in 1..=15 {
    for l in 1..=8 {
      let mut poses = [PackedIdx::null(); N];
      for (x, pos) in poses.iter_mut().step_by(2).take(l).enumerate() {
        *pos = PackedIdx::new(x as u32 + 1, y);
      }

      let center = HexPos::new(N as u32 / 2 + 1, y);
      let pawns = PawnList8::extract_black_pawns(&poses, center);

      let other_center = HexPos::new(9, 8);
      let expected_indices: Vec<usize> = poses
        .iter()
        .step_by(2)
        .take(l)
        .map(|&idx| {
          let offset = idx.to_hex_pos().sub_hex(&center);
          let pos = other_center.add_offset(&offset);
          pos.x() as usize + pos.y() as usize * N
        })
        .chain(std::iter::once(0).cycle().take(8 - l))
        .collect();

      let indices = pawns.pawn_indices::<N>(other_center);
      assert_eq!(indices, expected_indices, "y = {y}, l = {l}");
    }
  }
}
