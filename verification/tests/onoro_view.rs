use onoro::compress::Compress;
use onoro::groups::SymmetryClass;
use onoro::onoro_impl::OnoroImpl;
use onoro::onoro_view::OnoroView;
use onoro::hex_pos::HexPosOffset;
use onoro::onoro::PawnColor;

type Onoro16 = OnoroImpl<16>;

fn build_view(board_layout: &str) -> OnoroView<16> {
  OnoroView::new(OnoroImpl::<16>::from_board_string(board_layout).unwrap())
}

  #[test]
  #[allow(non_snake_case)]
  fn test_C_symm_simple() {
    let view1 = build_view(
      ". W B
        B . W
         W B",
    );
    let view2 = build_view(
      ". B W
        W . B
         B W",
    );
    let view3 = build_view(
      ". B W
        W B B
         B W",
    );
    let view4 = build_view(
      ". . B
        W . .
         . B",
    );
    let view5 = build_view(
      ". B .
        . . B
         W .",
    );

    assert_eq!(view1.canon_view().symm_class(), SymmetryClass::C);
    assert_eq!(view3.canon_view().symm_class(), SymmetryClass::C);
    assert_eq!(view4.canon_view().symm_class(), SymmetryClass::C);

    assert_eq!(&view1, &view2);
    assert_ne!(&view1, &view3);
    assert_ne!(&view2, &view3);
    assert_ne!(&view1, &view4);
    assert_ne!(&view2, &view4);
    assert_ne!(&view3, &view4);
    assert_ne!(&view1, &view5);
    assert_ne!(&view2, &view5);
    assert_ne!(&view3, &view5);
    assert_eq!(&view4, &view5);
  }

  #[test]
  #[allow(non_snake_case)]
  fn test_C_symm_2() {
    let view1 = build_view(
      ". W B
        . . .
         W B .",
    );
    let view2 = build_view(
      ". B .
        W . B
         . W .",
    );
    let view3 = build_view(
      ". W .
        B . B
         . W .",
    );
    let view4 = build_view(
      ". . W
        B . B
         W . .",
    );

    assert_eq!(view1.canon_view().symm_class(), SymmetryClass::C);
    assert_eq!(view3.canon_view().symm_class(), SymmetryClass::C);

    assert_eq!(&view1, &view2);
    assert_ne!(&view1, &view3);
    assert_ne!(&view2, &view3);
    assert_ne!(&view1, &view4);
    assert_ne!(&view2, &view4);
    assert_eq!(&view3, &view4);
  }

  #[test]
  #[allow(non_snake_case)]
  fn test_C_symm_3() {
    let view1 = build_view(
      ". . . . . . .
        . . . . B B .
         . . B W B W .
          . . B B W . .
           . B W B W . .
            . W W . . . .
             . . . . . . .",
    );
    let view2 = build_view(
      ". . . . . . .
        . . . W W . .
         . . B W B W .
          . . B B W . .
           . B W B W . .
            . . B B . . .
             . . . . . . .",
    );

    assert_eq!(view1.canon_view().symm_class(), SymmetryClass::C);
    assert_eq!(view2.canon_view().symm_class(), SymmetryClass::C);

    assert_eq!(&view1, &view2);
  }

  #[test]
  #[allow(non_snake_case)]
  fn test_E_symm_simple() {
    let view1 = build_view(
      ". W . B
        . . . .
         W . B .",
    );
    let view2 = build_view(
      ". . B .
        . . . B
         W . . .
          . W . .",
    );
    let view3 = build_view(
      ". . W .
        . . . B
         B . . .
          . W . .",
    );
    let view4 = build_view(
      ". . W .
        B . . .
         . . B .
          W . . .",
    );

    assert_eq!(view1.canon_view().symm_class(), SymmetryClass::E);
    assert_eq!(view3.canon_view().symm_class(), SymmetryClass::E);

    assert_eq!(&view1, &view2);
    assert_ne!(&view1, &view3);
    assert_ne!(&view2, &view3);
    assert_ne!(&view1, &view4);
    assert_ne!(&view2, &view4);
    assert_eq!(&view3, &view4);
  }

  #[test]
  #[allow(non_snake_case)]
  fn test_CV_symm_simple() {
    let view1 = build_view(
      ". B . .
        W B . .
         . . . .
          . . . W",
    );
    let view2 = build_view(
      ". . . W
        . . . .
         . . . .
          . . . .
           . B . .
            W B . .",
    );
    let view3 = build_view(
      ". . B B
        . . W .
         . . . .
          . . . .
           . . . .
            W . . .",
    );
    let view4 = build_view(
      ". . . . . B
        . . . . W B
         . . . . . .
          W . . . . .",
    );

    assert_eq!(view1.canon_view().symm_class(), SymmetryClass::CV);
    assert_eq!(view3.canon_view().symm_class(), SymmetryClass::CV);

    assert_eq!(&view1, &view2);
    assert_ne!(&view1, &view3);
    assert_ne!(&view2, &view3);
    assert_ne!(&view1, &view4);
    assert_ne!(&view2, &view4);
    assert_eq!(&view3, &view4);
  }

  #[test]
  #[allow(non_snake_case)]
  fn test_CE_symm_simple() {
    let view1 = build_view(
      ". B
        W B
         . W",
    );
    let view2 = build_view(
      ". W .
        B B W",
    );
    let view3 = build_view(
      ". . B
        W B W",
    );
    let view4 = build_view(
      ". . W
        . B B
         W . .",
    );

    assert_eq!(view1.canon_view().symm_class(), SymmetryClass::CE);
    assert_eq!(view3.canon_view().symm_class(), SymmetryClass::CE);

    assert_eq!(&view1, &view2);
    assert_ne!(&view1, &view3);
    assert_ne!(&view2, &view3);
    assert_ne!(&view1, &view4);
    assert_ne!(&view2, &view4);
    assert_eq!(&view3, &view4);
  }

  #[test]
  #[allow(non_snake_case)]
  fn test_EV_symm_simple() {
    let view1 = build_view(
      ". B . B
        . . . .
         . . W .
          B . W .",
    );
    let view2 = build_view(
      ". . . B
        W W . .
         . . . B
          B . . .",
    );
    let view3 = build_view(
      ". . . B
        . . B .
         B . . W
          . . . .
           W . . .",
    );
    let view4 = build_view(
      ". W . B
        . . . .
         . . B .
          W . B .",
    );

    assert_eq!(view1.canon_view().symm_class(), SymmetryClass::EV);
    assert_eq!(view3.canon_view().symm_class(), SymmetryClass::EV);

    assert_eq!(&view1, &view2);
    assert_ne!(&view1, &view3);
    assert_ne!(&view2, &view3);
    assert_ne!(&view1, &view4);
    assert_ne!(&view2, &view4);
    assert_eq!(&view3, &view4);
  }


  #[test]
  fn test_compress_single_pawn() {
    assert_eq!(build_view("B").compress(), 0b0001);
  }


  #[test]
  #[allow(non_snake_case)]
  fn test_CV_symm_hex_start() {
    const BOARD_POSITIONS: [&str; 6] = [
      ". . B
        . B W
         W . B
          B W .",
      ". B W B
        W . B .
         B W . .",
      ". B W
        W . B
         B W B",
      ". B W
        W . B
         B W .
          B . .",
      ". . B W
        . W . B
         B B W .",
      "B B W
        W . B
         B W .",
    ];

    let views = BOARD_POSITIONS.map(build_view);
    for i in 0..views.len() {
      assert_eq!(views[i].canon_view().symm_class(), SymmetryClass::CV);
      for j in 0..i {
        let view1 = &views[j];
        let view2 = &views[i];

        assert_eq!(view1, view2);
      }
    }
  }

  #[test]
  #[allow(non_snake_case)]
  fn test_trivial_symm_simple() {
    let view1 = build_view(
      ". B . B
        . . . .
         . . W .
          B W W .",
    );
    let view2 = build_view(
      ". . . B
        W W . .
         W . . B
          B . . .",
    );
    let view3 = build_view(
      ". . . B
        . . B W
         B . . W
          . . . .
           W . . .",
    );
    let view4 = build_view(
      ". W . B
        . . . .
         . . B .
          W W B .",
    );

    assert_eq!(view1.canon_view().symm_class(), SymmetryClass::Trivial);
    assert_eq!(view3.canon_view().symm_class(), SymmetryClass::Trivial);

    assert_eq!(&view1, &view2);
    assert_ne!(&view1, &view3);
    assert_ne!(&view2, &view3);
    assert_ne!(&view1, &view4);
    assert_ne!(&view2, &view4);
    assert_eq!(&view3, &view4);
  }

  #[test]
  fn test_1() {
    let onoro_str = build_view(
      ". W
        B B",
    );
    let onoro_pawns = OnoroView::new(
      Onoro16::from_pawns(vec![
        (HexPosOffset::new(0, 0), PawnColor::Black),
        (HexPosOffset::new(1, 0), PawnColor::Black),
        (HexPosOffset::new(1, 1), PawnColor::White),
      ])
      .unwrap(),
    );

    assert_eq!(onoro_str, onoro_pawns);
  }

#[test]
#[allow(clippy::unusual_byte_groupings)]
fn test_compress_two_pawns() {
  let packed = build_view("B W").compress();
  assert!([
    0b000_100_10,
    0b000_010_10,
    0b000_001_10,
    0b000_100_01,
    0b000_010_01,
    0b000_001_01
  ]
  .contains(&packed));
}

#[test]
fn compress_decompress_smoke() {
  let view = build_view(
    ". W . . . . . . . . . . . .
      B W B W B W B W B W B W B W
       . . . . . . . . . . . . B .",
  );
  assert_eq!(&view, &OnoroView::decompress(view.compress()).unwrap());
}

#[test]
fn compress_decompress_smoke2() {
  let view = build_view(
    ". W . . . W
      B W B W B W
       . B . B . .
        . W B W . .
         . W B B . .",
  );
  assert_eq!(&view, &OnoroView::decompress(view.compress()).unwrap());
}

#[test]
fn decompress_rejects_wrong_color_count() {
  assert!(OnoroView::<16>::decompress(0).is_err());
  assert!(OnoroView::<16>::decompress(0xff).is_err());
}
