use onoro::board_printer::display_on_hexagonal_grid;
use onoro::color_print::{Color, ColorAttrs, Colored};
use onoro::groups::{C2, D3, D6, K4};
use onoro::hex_pos::HexPosOffset;
use onoro::onoro::{Move, PawnColor, TileState};
use onoro::onoro_impl::OnoroImpl;
use onoro::packed_idx::PackedIdx;
use onoro::proto::{GameStateProto, Pawn};
use onoro::search::{BuildPassThroughHasher, Metrics, ParSearchOptions};
use onoro::tile_hash::HashGroup;
use onoro::util::{FilterNullPackedIdx, IterOnes};
use onoro::test_util::{normalized_ordered_moves, ordered_moves, pawn_map, OnoroCmp, OnoroMoveWrapper};

type Onoro16 = OnoroImpl<16>;

fn render(c: &Colored<char>) -> String {
  let mut out = Vec::new();
  c.write_to(&mut out);
  out.into_iter().collect()
}

#[test]
fn colored_text_escapes() {
  assert_eq!(render(&Colored::new('B', Color::Magenta)), "\x1b[0;35mB\x1b[0;39m");
  assert_eq!(render(&Colored::new('.', Color::Default)), ".");
  assert_eq!(
    render(&Colored::with_attrs('X', Color::Red, ColorAttrs { light: true, bold: true })),
    "\x1b[0;91m\x1b[1mX\x1b[21m\x1b[0;39m"
  );
}

#[test]
fn hexagonal_grid_of_two_pieces() {
  let text = display_on_hexagonal_grid(vec![
    (HexPosOffset::new(0, 0), 'B'),
    (HexPosOffset::new(1, 0), 'W'),
  ]);
  assert_eq!(text, ". . . .\n . B W .\n  . . . .");
}

#[test]
fn hexagonal_grid_of_nothing() {
  assert_eq!(display_on_hexagonal_grid(vec![]), "");
}

#[test]
fn print_with_move_highlights_new_pawn() {
  let onoro = Onoro16::default_start();
  let m = Move::Phase1Move { to: PackedIdx::new(7, 6) };
  assert!(onoro.move_fits(m));
  assert_eq!(
    onoro.print_with_move(m),
    ". . . . \n . . W . \n  . B B . \n   . \x1b[0;35mW\x1b[0;39m . . \n    . . . . "
  );
}

#[test]
fn validate_accepts_connected_board() {
  assert!(Onoro16::default_start().validate().is_ok());
  let onoro = Onoro16::from_board_string(
    ". W . B
      B B W .",
  )
  .unwrap();
  assert!(onoro.validate().is_ok());
}

#[test]
fn validate_rejects_two_groups() {
  let onoro = Onoro16::from_board_string("B . W").unwrap();
  let err = onoro.validate().unwrap_err();
  assert_eq!(err.message(), "Expected 1 contiguous pawn group, but found 2");
}

#[test]
fn placements_of_default_start() {
  let onoro = Onoro16::default_start();
  let moves = onoro.p1_moves();
  // The three pawns form a triangle; the tiles next to two of them are the
  // three tiles that share an edge with two pawns of the triangle.
  assert_eq!(moves.len(), 3);
  assert_eq!(onoro.each_move().len(), 3);
  for m in moves {
    assert!(onoro.move_fits(m));
  }
}

#[test]
fn iter_ones_lists_set_bits() {
  assert_eq!(0b1010_0001u64.iter_ones(), vec![0, 5, 7]);
  assert_eq!(0u64.iter_ones(), Vec::<u32>::new());
  assert_eq!(u64::MAX.iter_ones().len(), 64);
}

#[test]
fn filter_null_drops_null_positions() {
  let poses = vec![PackedIdx::new(1, 2), PackedIdx::null(), PackedIdx::new(3, 4), PackedIdx::null()];
  assert_eq!(poses.filter_null(), vec![PackedIdx::new(1, 2), PackedIdx::new(3, 4)]);
}

#[test]
fn pass_through_hasher_reads_little_endian() {
  let mut hasher = BuildPassThroughHasher.build_hasher();
  hasher.write(&[1, 2, 3, 4, 5, 6, 7, 8]);
  assert_eq!(hasher.finish(), 0x0807_0605_0403_0201);
}

#[test]
fn search_options_and_metrics() {
  let opts: ParSearchOptions = Default::default();
  assert_eq!((opts.n_threads, opts.unit_depth), (4, 3));
  let opts = opts.with_n_threads(8).with_unit_depth(5);
  assert_eq!((opts.n_threads, opts.unit_depth), (8, 5));

  let a = Metrics { n_states: 1, n_hits: 2, n_misses: 3, n_leaves: 4 };
  let b = Metrics::new().add(a).add(a);
  assert_eq!(b, Metrics { n_states: 2, n_hits: 4, n_misses: 6, n_leaves: 8 });
}

#[test]
fn game_state_message_of_default_start() {
  let proto = GameStateProto::from_onoro(&Onoro16::default_start());
  let state = proto.game_state();
  assert_eq!(
    state.pawns,
    vec![
      Pawn { x: Some(7), y: Some(7), black: Some(true) },
      Pawn { x: Some(8), y: Some(8), black: Some(false) },
      Pawn { x: Some(8), y: Some(7), black: Some(true) },
    ]
  );
  assert!(!state.black_turn());
  assert_eq!(state.turn_num(), 2);
  assert!(!state.finished());
  assert_eq!(Pawn { x: None, y: Some(3), black: None }.x(), 0);
  assert!(!Pawn { x: None, y: Some(3), black: None }.black());
}

#[test]
fn d6_is_a_group_action_on_hashes() {
  // Applying two symmetries one after the other is applying their product.
  let h = HashGroup::<D6>::new(0x0123_4567_89ab_cdef & 0x0fff_ffff_ffff_ffff);
  for a in D6::for_each() {
    for b in D6::for_each() {
      assert_eq!(h.apply(&b).apply(&a).hash(), h.apply(&a.op(&b)).hash());
    }
  }
  let k = HashGroup::<K4>::new(0x1111_2222_3333_4444);
  for a in 0..4 {
    for b in 0..4 {
      let (a, b) = (K4::from_ord(a), K4::from_ord(b));
      assert_eq!(k.apply(&b).apply(&a).hash(), k.apply(&a.op(&b)).hash());
    }
  }
}

#[test]
fn from_pawns_rejects_shared_tiles() {
  let r = Onoro16::from_pawns(vec![
    (HexPosOffset::new(0, 0), PawnColor::Black),
    (HexPosOffset::new(0, 0), PawnColor::White),
  ]);
  assert!(r.is_err());
}

#[test]
fn from_pawns_translates_pawns_off_the_border() {
  let g = Onoro16::from_pawns(vec![
    (HexPosOffset::new(3, 2), PawnColor::White),
    (HexPosOffset::new(2, 2), PawnColor::Black),
    (HexPosOffset::new(3, 3), PawnColor::Black),
  ])
  .unwrap();
  assert_eq!(g.get_tile(PackedIdx::new(1, 1)), TileState::Black);
  assert_eq!(g.get_tile(PackedIdx::new(2, 1)), TileState::White);
  assert_eq!(g.get_tile(PackedIdx::new(2, 2)), TileState::Black);
  assert_eq!(g.get_tile(PackedIdx::new(1, 2)), TileState::Empty);
}

#[test]
fn from_pawns_rejects_unbalanced_colors() {
  let r = Onoro16::from_pawns(vec![
    (HexPosOffset::new(0, 0), PawnColor::Black),
    (HexPosOffset::new(1, 0), PawnColor::White),
    (HexPosOffset::new(1, 1), PawnColor::White),
  ]);
  assert!(r.is_err());
}

fn message(pawns: Vec<Pawn>) -> GameStateProto {
  GameStateProto::new(onoro::proto::GameState {
    pawns,
    black_turn: Some(true),
    turn_num: None,
    finished: None,
  })
}

fn decode_error(proto: &GameStateProto) -> String {
  match proto.to_onoro::<16>() {
    Ok(_) => panic!("expected an error"),
    Err(onoro::proto::Error::ProtoDecode(msg)) => msg,
  }
}

#[test]
fn game_state_message_round_trip() {
  let onoro = Onoro16::default_start();
  let back = GameStateProto::from_onoro(&onoro).to_onoro::<16>().unwrap();
  let poses: Vec<(u32, u32)> = back.pawn_poses()[..3].iter().map(|p| (p.x(), p.y())).collect();
  assert_eq!(poses, vec![(1, 1), (2, 2), (2, 1)]);
  assert!(back.validate().is_ok());
}

#[test]
fn game_state_message_errors() {
  assert_eq!(decode_error(&message(vec![])), "No valid pawns");
  assert_eq!(
    decode_error(&message(vec![Pawn { x: None, y: Some(1), black: Some(true) }])),
    "No valid pawns"
  );
  assert_eq!(
    decode_error(&message(vec![
      Pawn { x: Some(0), y: Some(0), black: Some(true) },
      Pawn { x: Some(20), y: Some(0), black: Some(false) },
    ])),
    "x/y out of bounds: 20 0"
  );
  assert_eq!(
    decode_error(&message(vec![Pawn { x: Some(0), y: Some(0), black: Some(false) }])),
    "Must have at least one black pawn placed, since they are the first player."
  );
  assert_eq!(
    decode_error(&message(vec![
      Pawn { x: Some(0), y: Some(0), black: Some(true) },
      Pawn { x: Some(1), y: Some(0), black: None },
      Pawn { x: Some(1), y: Some(1), black: Some(false) },
    ])),
    "There must be either one fewer or equally many white pawns as there are black. Found 1 black and 2 white."
  );
  assert_eq!(
    decode_error(&message(vec![
      Pawn { x: Some(0), y: Some(0), black: Some(true) },
      Pawn { x: Some(0), y: Some(0), black: Some(false) },
    ])),
    "Pawns cannot be placed on the board."
  );
}

#[test]
fn rotations_move_pawns_about_the_origin() {
  let g = Onoro16::default_start();
  let same = g.rotated_d6_c(D6::Rot(0)).unwrap();
  let half = g.rotated_d6_c(D6::Rot(3)).unwrap();
  assert_eq!(same.pawns_in_play(), 3);
  assert_eq!(half.pawns_in_play(), 3);
  let dx = same.pawn_poses()[0].x() as i32 - g.pawn_poses()[0].x() as i32;
  let dy = same.pawn_poses()[0].y() as i32 - g.pawn_poses()[0].y() as i32;
  for k in 0..3 {
    let (a, b, c) = (g.pawn_poses()[k], same.pawn_poses()[k], half.pawn_poses()[k]);
    assert_eq!(b.x() as i32 - a.x() as i32, dx);
    assert_eq!(b.y() as i32 - a.y() as i32, dy);
    // A half turn about the middle of the board.
    assert_eq!(b.x() + c.x(), 16);
    assert_eq!(b.y() + c.y(), 16);
  }
  assert_eq!(same.player_color(), g.player_color());
}

#[test]
fn positions_and_hashes_as_text() {
  assert_eq!(PackedIdx::new(3, 12).to_string(), "(3, 12)");
  assert_eq!(
    HashGroup::<D6>::new(0x3ff | (0x12 << 10)).to_string(),
    "0x3ff 0x012 0x000 0x000 0x000 0x000"
  );
  assert_eq!(HashGroup::<D3>::new(0xabcde).to_string(), "0xabcde 0x00000 0x00000");
  assert_eq!(HashGroup::<K4>::new(0x1234_0000_0000_0001).to_string(), "0x0001 0x0000 0x0000 0x1234");
  assert_eq!(HashGroup::<C2>::new(0xdead_beef_0000_0010).to_string(), "0x00000010 0xdeadbeef");
  let g = Onoro16::default_start();
  assert_eq!(g.pawns_mathematica_list(), "{{7,7},{8,8},{8,7}}");
}

#[test]
fn normalized_moves_are_sorted_and_start_at_zero() {
  let g = Onoro16::default_start();
  let ordered = ordered_moves(&g).unwrap();
  assert_eq!(ordered.len(), g.each_move().len());
  let normal = normalized_ordered_moves(&g).unwrap();
  assert_eq!(normal.len(), ordered.len());
  let coords: Vec<(i32, i32)> = normal
    .iter()
    .map(|c| match c.t_move {
      OnoroMoveWrapper::Phase1 { to } => to,
      OnoroMoveWrapper::Phase2 { to, .. } => to,
    })
    .collect();
  for w in coords.windows(2) {
    assert!(w[0] < w[1]);
  }
  assert_eq!(coords.iter().map(|c| c.0).min(), Some(0));
  assert_eq!(coords.iter().map(|c| c.1).min(), Some(0));
  assert!(normal[0] == normal[0].clone());
  assert_eq!(normal[0].original(), ordered[0].original());
}

#[test]
fn pawn_maps_compare_up_to_translation() {
  let g = Onoro16::default_start();
  assert_eq!(
    pawn_map(&g),
    vec![((0, 0), PawnColor::Black), ((1, 1), PawnColor::White), ((1, 0), PawnColor::Black)]
  );
  let moved = g.rotated_d6_c(D6::Rot(0)).unwrap();
  assert!(OnoroCmp(&g).same_pawns(&OnoroCmp(&moved)));
  let turned = g.rotated_d6_c(D6::Rot(1)).unwrap();
  assert!(!OnoroCmp(&g).same_pawns(&OnoroCmp(&turned)));
}
