use chess::board::Board;
use chess::config::{self, PieceConfig};
use chess::pieces::bishop::get_bishop_move_data;
use chess::position::Position;

#[test]
fn bishop_test_attack_defend_pin() {
  let board_config = config::BoardConfig {
    pieces: vec![
      PieceConfig {piece: String::from("pawn"), white: true, column: 1, row: 3},
      PieceConfig {piece: String::from("bishop"), white: true, column: 2, row: 2},
      PieceConfig {piece: String::from("pawn"), white: false, column: 4, row: 4},
      PieceConfig {piece: String::from("king"), white: false, column: 7, row: 7}
    ],
    rows: 8,
    columns: 8
  };

  let mut board = Board::new(&board_config);
  let current_board = board.get_current_board();

  let move_data = get_bishop_move_data(Position {row: 2, column: 2}, &current_board);

  assert_eq!(move_data.position, Position {row: 2, column: 2});

  assert_eq!(move_data.attacks.len(), 6);
  assert!(move_data.attacks.contains(&Position {row: 0, column: 0}));
  assert!(move_data.attacks.contains(&Position {row: 1, column: 1}));
  assert!(move_data.attacks.contains(&Position {row: 1, column: 3}));
  assert!(move_data.attacks.contains(&Position {row: 0, column: 4}));
  assert!(move_data.attacks.contains(&Position {row: 3, column: 3}));
  assert!(move_data.attacks.contains(&Position {row: 4, column: 4}));

  assert_eq!(move_data.defends.len(), 1);
  assert!(move_data.defends.contains(&Position {row: 3, column: 1}));

  assert_eq!(move_data.pins.len(), 1);
  assert!(move_data.pins.contains(&Position {row: 4, column: 4}));

  assert!(move_data.checking_path.is_none());
}

#[test]
fn bishop_test_check_path() {
  let board_config = config::BoardConfig {
    pieces: vec![
      PieceConfig {piece: String::from("bishop"), white: true, column: 5, row: 1},
      PieceConfig {piece: String::from("king"), white: false, column: 2, row: 4}
    ],
    rows: 8,
    columns: 8
  };

  let mut board = Board::new(&board_config);
  let current_board = board.get_current_board();

  let move_data = get_bishop_move_data(Position {row: 1, column: 5}, &current_board);

  assert!(move_data.checking_path.is_some());

  let checking_path = move_data.checking_path.unwrap();

  assert_eq!(checking_path.len(), 2);
  assert!(checking_path.contains(&Position {row: 3, column: 3}));
  assert!(checking_path.contains(&Position {row: 2, column: 4}));
}

