use onoro::groups::{C2, D3, D6, K4};
use onoro::hash::HashTable;
use onoro::hex_pos::{HexPos, HexPosOffset};
use onoro::tile_hash::HashGroup;

type HD6 = HashTable<16, D6>;
type HD3 = HashTable<16, D3>;
type HK4 = HashTable<16, K4>;
type HC2 = HashTable<16, C2>;
type HT = HashTable<16, onoro::groups::Trivial>;

#[derive(Clone, Copy)]
enum Turn {
  CurPlayer,
  OtherPlayer,
}

impl Turn {
  fn iter() -> impl Iterator<Item = Self> {
    [Self::CurPlayer, Self::OtherPlayer].into_iter()
  }
}

fn get_hash<G>(table: &HashTable<16, G>, i: usize, turn: Turn) -> &HashGroup<G> {
  match turn {
    Turn::CurPlayer => &table.cur_table()[i],
    Turn::OtherPlayer => &table.other_table()[i],
  }
}

/// The tile at `offset` from the center of a table of width 16, if it is on
/// the board (negative coordinates wrap around to huge ones, which are off
/// the board).
fn table_pos(offset: HexPosOffset) -> HexPos {
  let center = HD6::center();
  HexPos::new(
    (offset.x + center.x as i32) as u32,
    (offset.y + center.y as i32) as u32,
  )
}

#[test]
fn hash_test_d6_table() {
  let d6t: HD6 = HashTable::new_c();

  for i in 0..256 {
    let pos = HD6::ord_to_hex_pos(i).sub_hex(&HD6::center());

    for turn in Turn::iter() {
      let mut s = pos;
      let mut op = D6::identity();
      let hash = get_hash(&d6t, i, turn);

      if i == 0 {
        assert_eq!(hash.hash(), HashGroup::<D6>::new(0).hash());
      }

      for _ in 0..5 {
        s = s.apply_d6_c(&D6::Rot(1));
        op = D6::Rot(1).op(&op);

        let symm_pos = table_pos(s);
        if HD6::in_bounds(&symm_pos) {
          let ord = HD6::hex_pos_ord(&symm_pos);
          let symm_hash = get_hash(&d6t, ord, turn);

          assert_eq!(symm_hash.hash(), hash.apply(&op).hash());
        }
      }

      op = D6::Rfl(0);
      s = pos.apply_d6_c(&op);
      for _ in 0..6 {
        let symm_pos = table_pos(s);
        if HD6::in_bounds(&symm_pos) {
          let ord = HD6::hex_pos_ord(&symm_pos);
          let symm_hash = get_hash(&d6t, ord, turn);

          assert_eq!(symm_hash.hash(), hash.apply(&op).hash());
        }

        s = s.apply_d6_c(&D6::Rot(1));
        op = D6::Rot(1).op(&op);
      }
    }
  }
}

#[test]
fn hash_test_d3_table() {
  let d3t: HD3 = HashTable::new_v();

  for i in 0..256 {
    let pos = HD3::ord_to_hex_pos(i).sub_hex(&HD3::center());

    for turn in Turn::iter() {
      let mut s = pos;
      let mut op = D3::identity();
      let hash = get_hash(&d3t, i, turn);

      if i == 0 {
        assert_eq!(hash.hash(), HashGroup::<D3>::new(0).hash());
      }

      for _ in 0..2 {
        s = s.apply_d3_v(&D3::Rot(1));
        op = D3::Rot(1).op(&op);

        let symm_pos = table_pos(s);
        if HD3::in_bounds(&symm_pos) {
          let ord = HD3::hex_pos_ord(&symm_pos);
          let symm_hash = get_hash(&d3t, ord, turn);

          assert_eq!(symm_hash.hash(), hash.apply(&op).hash());
        }
      }

      op = D3::Rfl(0);
      s = pos.apply_d3_v(&op);
      for _ in 0..3 {
        let symm_pos = table_pos(s);
        if HD3::in_bounds(&symm_pos) {
          let ord = HD3::hex_pos_ord(&symm_pos);
          let symm_hash = get_hash(&d3t, ord, turn);

          assert_eq!(symm_hash.hash(), hash.apply(&op).hash());
        }

        s = s.apply_d3_v(&D3::Rot(1));
        op = D3::Rot(1).op(&op);
      }
    }
  }
}

#[test]
fn hash_test_k4_table() {
  let k4t: HK4 = HashTable::new_e();

  for i in 0..256 {
    let pos = HK4::ord_to_hex_pos(i).sub_hex(&HK4::center());

    for turn in Turn::iter() {
      let hash = get_hash(&k4t, i, turn);

      if i == 0 {
        assert_eq!(hash.hash(), HashGroup::<K4>::new(0).hash());
      }

      let mut op_ord = 1;
      while op_ord < 4 {
        let op = K4::from_ord(op_ord);
        op_ord += 1;

        let symm_pos = table_pos(pos.apply_k4_e(&op));
        if HK4::in_bounds(&symm_pos) {
          let ord = HD3::hex_pos_ord(&symm_pos);
          let symm_hash = get_hash(&k4t, ord, turn);

          assert_eq!(symm_hash.hash(), hash.apply(&op).hash());
        }
      }
    }
  }
}

#[test]
fn hash_test_c2_cv_table() {
  let c2t: HC2 = HashTable::new_cv();

  for i in 0..256 {
    let pos = HC2::ord_to_hex_pos(i).sub_hex(&HC2::center());

    for turn in Turn::iter() {
      let hash = get_hash(&c2t, i, turn);

      if i == 0 {
        assert_eq!(hash.hash(), HashGroup::<C2>::new(0).hash());
      }

      let symm_pos = table_pos(pos.apply_c2_cv(&C2(1)));
      if HC2::in_bounds(&symm_pos) {
        let ord = HC2::hex_pos_ord(&symm_pos);
        let symm_hash = get_hash(&c2t, ord, turn);

        assert_eq!(symm_hash.hash(), hash.apply(&C2(1)).hash());
      }
    }
  }
}

#[test]
fn hash_test_c2_ce_table() {
  let c2t: HC2 = HashTable::new_ce();

  for i in 0..256 {
    let pos = HC2::ord_to_hex_pos(i).sub_hex(&HC2::center());

    for turn in Turn::iter() {
      let hash = get_hash(&c2t, i, turn);

      if i == 0 {
        assert_eq!(hash.hash(), HashGroup::<C2>::new(0).hash());
      }

      let symm_pos = table_pos(pos.apply_c2_ce(&C2(1)));
      if HC2::in_bounds(&symm_pos) {
        let ord = HC2::hex_pos_ord(&symm_pos);
        let symm_hash = get_hash(&c2t, ord, turn);

        assert_eq!(symm_hash.hash(), hash.apply(&C2(1)).hash());
      }
    }
  }
}

#[test]
fn hash_test_c2_ev_table() {
  let c2t: HC2 = HashTable::new_ev();

  for i in 0..256 {
    let pos = HC2::ord_to_hex_pos(i).sub_hex(&HC2::center());

    for turn in Turn::iter() {
      let hash = get_hash(&c2t, i, turn);

      if i == 0 {
        assert_eq!(hash.hash(), HashGroup::<C2>::new(0).hash());
      }

      let symm_pos = table_pos(pos.apply_c2_ev(&C2(1)));
      if HC2::in_bounds(&symm_pos) {
        let ord = HC2::hex_pos_ord(&symm_pos);
        let symm_hash = get_hash(&c2t, ord, turn);

        assert_eq!(symm_hash.hash(), hash.apply(&C2(1)).hash());
      }
    }
  }
}

#[test]
fn test_trivial_table() {
  let tt: HT = HashTable::new_trivial();
  assert_eq!(tt.cur_table()[0].hash(), HashGroup::<onoro::groups::Trivial>::new(0).hash());
  assert_eq!(tt.other_table()[0].hash(), HashGroup::<onoro::groups::Trivial>::new(0).hash());
}

#[test]
fn test_trivial_table_draws() {
  let tt: HT = HashTable::new_trivial();
  let rng = onoro::const_rand::Xoroshiro128::from_seed(&[0x243f_6a88_85a3_08d3, 0x1319_8a2e_0370_7344]);
  let (rng, first) = rng.next_u64();
  let (_, second) = rng.next_u64();
  assert_eq!(tt.cur_table()[1].hash(), first);
  assert_eq!(tt.cur_table()[2].hash(), second);
}

#[test]
fn test_symmetric_tables_not_zero() {
  let d6t: HD6 = HashTable::new_c();
  let d3t: HD3 = HashTable::new_v();
  let k4t: HK4 = HashTable::new_e();
  let c2t: HC2 = HashTable::new_cv();
  assert!(d6t.cur_table().iter().any(|h| h.hash() != 0));
  assert!(d6t.other_table().iter().any(|h| h.hash() != 0));
  assert!(d3t.cur_table().iter().any(|h| h.hash() != 0));
  assert!(k4t.cur_table().iter().any(|h| h.hash() != 0));
  assert!(c2t.cur_table().iter().any(|h| h.hash() != 0));
  assert!((0..256).any(|i| d6t.cur_table()[i].hash() != d6t.other_table()[i].hash()));
}
