use chess::board::Board;
use chess::config::{self, PieceConfig};
use chess::pieces::knight::get_knight_move_data;
use chess::position::Position;

#[test]
fn knight_test_standard_positions() {
  let board_config = config::BoardConfig {
    pieces: vec![
      PieceConfig {piece: String::from("knight"), white: true, column: 3, row: 3}
    ],
    rows: 8,
    columns: 8
  };

  let mut board = Board::new(&board_config);
  let current_board = board.get_current_board();

  let pos = Position {row: 3, column: 3};
  let move_data = get_knight_move_data(&pos, &current_board);

  assert_eq!(move_data.attacks.len(), 8);
  assert!(move_data.attacks.contains(&Position {row: 5, column: 4}));
  assert!(move_data.attacks.contains(&Position {row: 4, column: 5}));
  assert!(move_data.attacks.contains(&Position {row: 2, column: 5}));
  assert!(move_data.attacks.contains(&Position {row: 1, column: 4}));
  assert!(move_data.attacks.contains(&Position {row: 1, column: 2}));
  assert!(move_data.attacks.contains(&Position {row: 2, column: 1}));
  assert!(move_data.attacks.contains(&Position {row: 4, column: 1}));
  assert!(move_data.attacks.contains(&Position {row: 5, column: 2}));
}

#[test]
fn knight_test_attack_defend() {
  let board_config = config::BoardConfig {
    pieces: vec![
      PieceConfig {piece: String::from("pawn"), white: true, column: 4, row: 0},
      PieceConfig {piece: String::from("knight"), white: true, column: 2, row: 1},
      PieceConfig {piece: String::from("pawn"), white: false, column: 3, row: 3},
      PieceConfig {piece: String::from("king"), white: false, column: 2, row: 3}
    ],
    rows: 8,
    columns: 8
  };

  let mut board = Board::new(&board_config);
  let current_board = board.get_current_board();

  let pos = Position {row: 1, column: 2};
  let move_data = get_knight_move_data(&pos, &current_board);

  assert_eq!(move_data.position, Position {row: 1, column: 2});

  assert_eq!(move_data.attacks.len(), 5);
  assert!(move_data.attacks.contains(&Position {row: 0, column: 0}));
  assert!(move_data.attacks.contains(&Position {row: 2, column: 0}));
  assert!(move_data.attacks.contains(&Position {row: 3, column: 1}));
  assert!(move_data.attacks.contains(&Position {row: 3, column: 3}));
  assert!(move_data.attacks.contains(&Position {row: 2, column: 4}));

  assert_eq!(move_data.defends.len(), 1);
  assert!(move_data.defends.contains(&Position {row: 0, column: 4}));

  assert!(move_data.pins.is_empty());

  assert!(move_data.checking_path.is_none());
}

#[test]
fn knight_test_check_path() {
  let board_config = config::BoardConfig {
    pieces: vec![
      PieceConfig {piece: String::from("knight"), white: true, column: 0, row: 1},
      PieceConfig {piece: String::from("king"), white: false, column: 2, row: 2}
    ],
    rows: 8,
    columns: 8
  };

  let mut board = Board::new(&board_config);
  let current_board = board.get_current_board();

  let pos = Position {row: 1, column: 0};
  let move_data = get_knight_move_data(&pos, &current_board);

  assert!(move_data.checking_path.is_some());

  // If checking the king there is no checking path for a knight as it cannot be blocked
  assert!(move_data.checking_path.unwrap().is_empty());
}

