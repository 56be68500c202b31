use onoro::error::OnoroError;
use onoro::hex_pos::HexPosOffset;
use onoro::onoro::PawnColor;
use onoro::onoro_impl::OnoroImpl;

type Onoro16 = OnoroImpl<16>;

/// The board drawn in `picture`, in the format of `from_board_string`, built
/// from the relative positions of its pawns: the tile in column `x` of line
/// `y` is at (x, -y). Unlike `from_board_string`, this accepts pictures with
/// more lines than half the width of the board.
fn board_from_picture(picture: &str) -> Result<Onoro16, OnoroError> {
  let mut pawns = Vec::new();
  for (y, line) in picture.split('\n').enumerate() {
    for (x, tile) in line.split_ascii_whitespace().enumerate() {
      let pos = HexPosOffset::new(x as i32, -(y as i32));
      match tile {
        "B" | "b" => pawns.push((pos, PawnColor::Black)),
        "W" | "w" => pawns.push((pos, PawnColor::White)),
        _ => {}
      }
    }
  }
  Onoro16::from_pawns(pawns).map_err(OnoroError::new)
}

#[test]
fn test_worst_case() -> Result<(), OnoroError> {
  let worst_case = board_from_picture(
    ". W . . . . . .
      B B . . . . . .
       . W . . . . . .
        . B . . . . . .
         . W . . . . . .
          . B . . . . . .
           . W . . . . . .
            . B W B W B W B
             . . . . . . W .",
  )?;

  assert_eq!(worst_case.p1_moves().len(), 25);

  Ok(())
}

#[test]
fn test_line_x() -> Result<(), OnoroError> {
  let line_x = Onoro16::from_board_string(
    ". B . . . . . . . . . . . .
      W B W B W B W B W B W B W B
       . . . . . . . . . . . . W .",
  )?;

  assert_eq!(line_x.p1_moves().len(), 26);

  Ok(())
}

#[test]
fn test_line_y() -> Result<(), OnoroError> {
  let line_y = board_from_picture(
    ". B .
      W B .
       . W .
        . B .
         . W .
          . B .
           . W .
            . B .
             . W .
              . B .
               . W .
                . B .
                 . W B
                  . W .",
  )?;

  assert_eq!(line_y.p1_moves().len(), 26);

  Ok(())
}

#[test]
fn test_line_xy() -> Result<(), OnoroError> {
  let line_xy = board_from_picture(
    ". . . . . . . . . . . . W B
      . . . . . . . . . . . . W .
       . . . . . . . . . . . B . .
        . . . . . . . . . . W . . .
         . . . . . . . . . B . . . .
          . . . . . . . . W . . . . .
           . . . . . . . B . . . . . .
            . . . . . . W . . . . . . .
             . . . . . B . . . . . . . .
              . . . . W . . . . . . . . .
               . . . B . . . . . . . . . .
                . . W . . . . . . . . . . .
                 . B . . . . . . . . . . . .
                  B W . . . . . . . . . . . .",
  )?;

  assert_eq!(line_xy.p1_moves().len(), 26);

  Ok(())
}
