use chess::board::Board;
use chess::config::{self, PieceConfig};
use chess::piece_move::PieceMove;
use chess::pieces::king::{
    get_castle_move, get_king_move_data, is_king_long_castle_valid, is_king_short_castle_valid,
};
use chess::position::Position;

#[test]
fn king_test_standard_positions() {
  let board_config = config::BoardConfig {
    pieces: vec![
      PieceConfig {piece: String::from("king"), white: true, column: 3, row: 3}
    ],
    rows: 8,
    columns: 8
  };

  let mut board = Board::new(&board_config);
  let current_board = board.get_current_board();

  let pos = Position {row: 3, column: 3};
  let move_data = get_king_move_data(&pos, &current_board);

  assert_eq!(move_data.attacks.len(), 8);
  assert!(move_data.attacks.contains(&Position {row: 4, column: 3}));
  assert!(move_data.attacks.contains(&Position {row: 4, column: 4}));
  assert!(move_data.attacks.contains(&Position {row: 3, column: 4}));
  assert!(move_data.attacks.contains(&Position {row: 2, column: 4}));
  assert!(move_data.attacks.contains(&Position {row: 2, column: 3}));
  assert!(move_data.attacks.contains(&Position {row: 2, column: 2}));
  assert!(move_data.attacks.contains(&Position {row: 3, column: 2}));
  assert!(move_data.attacks.contains(&Position {row: 4, column: 2}));
}

#[test]
fn king_test_attack_defend() {
  let board_config = config::BoardConfig {
    pieces: vec![
      PieceConfig {piece: String::from("pawn"), white: true, column: 0, row: 1},
      PieceConfig {piece: String::from("king"), white: true, column: 0, row: 0},
      PieceConfig {piece: String::from("pawn"), white: false, column: 1, row: 1},
      PieceConfig {piece: String::from("king"), white: false, column: 0, row: 3}
    ],
    rows: 8,
    columns: 8
  };

  let mut board = Board::new(&board_config);
  let current_board = board.get_current_board();

  let pos = Position {row: 0, column: 0};
  let move_data = get_king_move_data(&pos, &current_board);

  assert_eq!(move_data.position, Position {row: 0, column: 0});

  assert_eq!(move_data.attacks.len(), 2);
  assert!(move_data.attacks.contains(&Position {row: 1, column: 1}));
  assert!(move_data.attacks.contains(&Position {row: 0, column: 1}));

  assert_eq!(move_data.defends.len(), 1);
  assert!(move_data.defends.contains(&Position {row: 1, column: 0}));

  assert!(move_data.pins.is_empty());

  assert!(move_data.checking_path.is_none());
}

#[test]
fn valid_long_castle_black() {
  let board_config = config::BoardConfig {
    pieces: vec![
      PieceConfig {piece: String::from("king"), white: false, column: 4, row: 7},
      PieceConfig {piece: String::from("rook"), white: false, column: 0, row: 7}
    ],
    rows: 8,
    columns: 8
  };

  let mut board = Board::new(&board_config);
  let current_board = &board.get_current_board();

  assert_eq!(is_king_long_castle_valid(&Position{row:7, column:4}, current_board, &vec![]), true);
}

#[test]
fn valid_long_castle_black_b8_attacked() {
  let board_config = config::BoardConfig {
    pieces: vec![
      PieceConfig {piece: String::from("rook"), white: true, column: 1, row: 0},
      PieceConfig {piece: String::from("king"), white: false, column: 4, row: 7},
      PieceConfig {piece: String::from("rook"), white: false, column: 0, row: 7}
    ],
    rows: 8,
    columns: 8
  };

  let mut board = Board::new(&board_config);
  let current_board = &board.get_current_board();

  // Excluding unnecessary positions from attacks vector for simplicity
  let attacks = vec![Position{row:7, column:1}];

  assert_eq!(is_king_long_castle_valid(&Position{row:7, column:4}, current_board, &attacks), true);
}

#[test]
fn valid_long_castle_white() {
  let board_config = config::BoardConfig {
    pieces: vec![
      PieceConfig {piece: String::from("king"), white: true, column: 4, row: 0},
      PieceConfig {piece: String::from("rook"), white: true, column: 0, row: 0}
    ],
    rows: 8,
    columns: 8
  };

  let mut board = Board::new(&board_config);
  let current_board = &board.get_current_board();

  assert_eq!(is_king_long_castle_valid(&Position{row:0, column:4}, current_board, &vec![]), true);
}

#[test]
fn valid_long_castle_white_b1_attacked() {
  let board_config = config::BoardConfig {
    pieces: vec![
      PieceConfig {piece: String::from("rook"), white: false, column: 1, row: 7},
      PieceConfig {piece: String::from("king"), white: true, column: 4, row: 0},
      PieceConfig {piece: String::from("rook"), white: true, column: 0, row: 0}
    ],
    rows: 8,
    columns: 8
  };

  let mut board = Board::new(&board_config);
  let current_board = &board.get_current_board();

  // Excluding unnecessary positions from attacks vector for simplicity
  let attacks = vec![Position{row:0, column:1}];

  assert_eq!(is_king_long_castle_valid(&Position{row:0, column:4}, current_board, &attacks), true);
}

#[test]
fn valid_short_castle_white() {
  let board_config = config::BoardConfig {
    pieces: vec![
      PieceConfig {piece: String::from("king"), white: true, column: 4, row: 0},
      PieceConfig {piece: String::from("rook"), white: true, column: 7, row: 0}
    ],
    rows: 8,
    columns: 8
  };

  let mut board = Board::new(&board_config);
  let current_board = &board.get_current_board();

  assert_eq!(is_king_short_castle_valid(&Position{row:0, column:4}, current_board, &vec![]), true);
}

#[test]
fn valid_short_castle_black() {
  let board_config = config::BoardConfig {
    pieces: vec![
      PieceConfig {piece: String::from("king"), white: false, column: 4, row: 7},
      PieceConfig {piece: String::from("rook"), white: false, column: 7, row: 7}
    ],
    rows: 8,
    columns: 8
  };

  let mut board = Board::new(&board_config);
  let current_board = &board.get_current_board();

  assert_eq!(is_king_short_castle_valid(&Position{row:7, column:4}, current_board, &vec![]), true);
}

#[test]
fn valid_long_castle_white_rook_attacked() {
  let board_config = config::BoardConfig {
    pieces: vec![
      PieceConfig {piece: String::from("king"), white: true, column: 4, row: 0},
      PieceConfig {piece: String::from("rook"), white: true, column: 0, row: 0},
      PieceConfig {piece: String::from("rook"), white: true, column: 0, row: 7}
    ],
    rows: 8,
    columns: 8
  };

  let mut board = Board::new(&board_config);
  let current_board = &board.get_current_board();

  // Excluding unnecessary positions from attacks vector for simplicity
  let attacks = vec![Position{row:0, column:0}];

  assert_eq!(is_king_long_castle_valid(&Position{row:0, column:4}, current_board, &attacks), true);
}

#[test]
fn valid_long_castle_black_rook_attacked() {
  let board_config = config::BoardConfig {
    pieces: vec![
      PieceConfig {piece: String::from("king"), white: false, column: 4, row: 7},
      PieceConfig {piece: String::from("rook"), white: false, column: 0, row: 7},
      PieceConfig {piece: String::from("rook"), white: true, column: 0, row: 0}
    ],
    rows: 8,
    columns: 8
  };

  let mut board = Board::new(&board_config);
  let current_board = &board.get_current_board();

  // Excluding unnecessary positions from attacks vector for simplicity
  let attacks = vec![Position{row:7, column:0}];

  assert_eq!(is_king_long_castle_valid(&Position{row:7, column:4}, current_board, &attacks), true);
}

#[test]
fn valid_short_castle_white_rook_attacked() {
  let board_config = config::BoardConfig {
    pieces: vec![
      PieceConfig {piece: String::from("king"), white: true, column: 4, row: 0},
      PieceConfig {piece: String::from("rook"), white: true, column: 7, row: 0},
      PieceConfig {piece: String::from("rook"), white: false, column: 7, row: 7}
    ],
    rows: 8,
    columns: 8
  };

  let mut board = Board::new(&board_config);
  let current_board = &board.get_current_board();

  // Excluding unnecessary positions from attacks vector for simplicity
  let attacks = vec![Position{row:0, column:7}];

  assert_eq!(is_king_short_castle_valid(&Position{row:0, column:4}, current_board, &attacks), true);
}

#[test]
fn valid_short_castle_black_rook_attacked() {
  let board_config = config::BoardConfig {
    pieces: vec![
      PieceConfig {piece: String::from("king"), white: false, column: 4, row: 7},
      PieceConfig {piece: String::from("rook"), white: false, column: 7, row: 7},
      PieceConfig {piece: String::from("rook"), white: false, column: 7, row: 0}
    ],
    rows: 8,
    columns: 8
  };

  let mut board = Board::new(&board_config);
  let current_board = &board.get_current_board();

  // Excluding unnecessary positions from attacks vector for simplicity
  let attacks = vec![Position{row:7, column:7}];

  assert_eq!(is_king_short_castle_valid(&Position{row:7, column:4}, current_board, &attacks), true);
}

#[test]
fn invalid_long_castle_white_blocked() {
  let board_config = config::BoardConfig {
    pieces: vec![
      PieceConfig {piece: String::from("king"), white: true, column: 4, row: 0},
      PieceConfig {piece: String::from("knight"), white: true, column: 1, row: 0},
      PieceConfig {piece: String::from("rook"), white: true, column: 0, row: 0}
    ],
    rows: 8,
    columns: 8
  };

  let mut board = Board::new(&board_config);
  let current_board = &board.get_current_board();

  assert_eq!(is_king_long_castle_valid(&Position{row:0, column:4}, current_board, &vec![]), false);
}

#[test]
fn invalid_long_castle_black_blocked() {
  let board_config = config::BoardConfig {
    pieces: vec![
      PieceConfig {piece: String::from("king"), white: false, column: 4, row: 7},
      PieceConfig {piece: String::from("knight"), white: false, column: 1, row: 7},
      PieceConfig {piece: String::from("rook"), white: false, column: 0, row: 7}
    ],
    rows: 8,
    columns: 8
  };

  let mut board = Board::new(&board_config);
  let current_board = &board.get_current_board();

  assert_eq!(is_king_long_castle_valid(&Position{row:7, column:4}, current_board, &vec![]), false);
}

#[test]
fn invalid_short_castle_white_blocked() {
  let board_config = config::BoardConfig {
    pieces: vec![
      PieceConfig {piece: String::from("king"), white: true, column: 4, row: 0},
      PieceConfig {piece: String::from("knight"), white: true, column: 6, row: 0},
      PieceConfig {piece: String::from("rook"), white: true, column: 7, row: 0}
    ],
    rows: 8,
    columns: 8
  };

  let mut board = Board::new(&board_config);
  let current_board = &board.get_current_board();

  assert_eq!(is_king_short_castle_valid(&Position{row:0, column:4}, current_board, &vec![]), false);
}

#[test]
fn invalid_short_castle_black_blocked() {
  let board_config = config::BoardConfig {
    pieces: vec![
      PieceConfig {piece: String::from("king"), white: false, column: 4, row: 7},
      PieceConfig {piece: String::from("knight"), white: false, column: 6, row: 7},
      PieceConfig {piece: String::from("rook"), white: false, column: 7, row: 7}
    ],
    rows: 8,
    columns: 8
  };

  let mut board = Board::new(&board_config);
  let current_board = &board.get_current_board();

  assert_eq!(is_king_short_castle_valid(&Position{row:7, column:4}, current_board, &vec![]), false);
}

#[test]
fn invalid_long_castle_white_attacked_position() {
  let board_config = config::BoardConfig {
    pieces: vec![
      PieceConfig {piece: String::from("king"), white: true, column: 4, row: 0},
      PieceConfig {piece: String::from("rook"), white: true, column: 0, row: 0},
      PieceConfig {piece: String::from("rook"), white: true, column: 3, row: 7}
    ],
    rows: 8,
    columns: 8
  };

  let mut board = Board::new(&board_config);
  let current_board = &board.get_current_board();

  // Excluding unnecessary positions from attacks vector for simplicity
  let attacks = vec![Position{row:0, column:3}];

  assert_eq!(is_king_long_castle_valid(&Position{row:0, column:4}, current_board, &attacks), false);
}

#[test]
fn invalid_long_castle_black_attacked_position() {
  let board_config = config::BoardConfig {
    pieces: vec![
      PieceConfig {piece: String::from("king"), white: false, column: 4, row: 7},
      PieceConfig {piece: String::from("rook"), white: false, column: 0, row: 7},
      PieceConfig {piece: String::from("rook"), white: true, column: 3, row: 0}
    ],
    rows: 8,
    columns: 8
  };

  let mut board = Board::new(&board_config);
  let current_board = &board.get_current_board();

  // Excluding unnecessary positions from attacks vector for simplicity
  let attacks = vec![Position{row:7, column:3}];

  assert_eq!(is_king_long_castle_valid(&Position{row:7, column:4}, current_board, &attacks), false);
}

#[test]
fn invalid_short_castle_white_attacked_position() {
  let board_config = config::BoardConfig {
    pieces: vec![
      PieceConfig {piece: String::from("king"), white: true, column: 4, row: 0},
      PieceConfig {piece: String::from("rook"), white: true, column: 7, row: 0},
      PieceConfig {piece: String::from("rook"), white: false, column: 5, row: 7}
    ],
    rows: 8,
    columns: 8
  };

  let mut board = Board::new(&board_config);
  let current_board = &board.get_current_board();

  // Excluding unnecessary positions from attacks vector for simplicity
  let attacks = vec![Position{row:0, column:5}];

  assert_eq!(is_king_short_castle_valid(&Position{row:0, column:4}, current_board, &attacks), false);
}

#[test]
fn invalid_short_castle_black_attacked_position() {
  let board_config = config::BoardConfig {
    pieces: vec![
      PieceConfig {piece: String::from("king"), white: false, column: 4, row: 7},
      PieceConfig {piece: String::from("rook"), white: false, column: 7, row: 7},
      PieceConfig {piece: String::from("rook"), white: false, column: 5, row: 0}
    ],
    rows: 8,
    columns: 8
  };

  let mut board = Board::new(&board_config);
  let current_board = &board.get_current_board();

  // Excluding unnecessary positions from attacks vector for simplicity
  let attacks = vec![Position{row:7, column:5}];

  assert_eq!(is_king_short_castle_valid(&Position{row:7, column:4}, current_board, &attacks), false);
}

#[test]
fn invalid_long_castle_white_king_attacked() {
  let board_config = config::BoardConfig {
    pieces: vec![
      PieceConfig {piece: String::from("king"), white: true, column: 4, row: 0},
      PieceConfig {piece: String::from("rook"), white: true, column: 0, row: 0},
      PieceConfig {piece: String::from("rook"), white: true, column: 4, row: 7}
    ],
    rows: 8,
    columns: 8
  };

  let mut board = Board::new(&board_config);
  let current_board = &board.get_current_board();

  // Excluding unnecessary positions from attacks vector for simplicity
  let attacks = vec![Position{row:0, column:4}];

  assert_eq!(is_king_long_castle_valid(&Position{row:0, column:4}, current_board, &attacks), false);
}

#[test]
fn invalid_long_castle_black_king_attacked() {
  let board_config = config::BoardConfig {
    pieces: vec![
      PieceConfig {piece: String::from("king"), white: false, column: 4, row: 7},
      PieceConfig {piece: String::from("rook"), white: false, column: 0, row: 7},
      PieceConfig {piece: String::from("rook"), white: true, column: 4, row: 0}
    ],
    rows: 8,
    columns: 8
  };

  let mut board = Board::new(&board_config);
  let current_board = &board.get_current_board();

  // Excluding unnecessary positions from attacks vector for simplicity
  let attacks = vec![Position{row:7, column:4}];

  assert_eq!(is_king_long_castle_valid(&Position{row:7, column:4}, current_board, &attacks), false);
}

#[test]
fn invalid_short_castle_white_king_attacked() {
  let board_config = config::BoardConfig {
    pieces: vec![
      PieceConfig {piece: String::from("king"), white: true, column: 4, row: 0},
      PieceConfig {piece: String::from("rook"), white: true, column: 7, row: 0},
      PieceConfig {piece: String::from("rook"), white: false, column: 4, row: 7}
    ],
    rows: 8,
    columns: 8
  };

  let mut board = Board::new(&board_config);
  let current_board = &board.get_current_board();

  // Excluding unnecessary positions from attacks vector for simplicity
  let attacks = vec![Position{row:0, column:4}];

  assert_eq!(is_king_short_castle_valid(&Position{row:0, column:4}, current_board, &attacks), false);
}

#[test]
fn invalid_short_castle_black_king_attacked() {
  let board_config = config::BoardConfig {
    pieces: vec![
      PieceConfig {piece: String::from("king"), white: false, column: 4, row: 7},
      PieceConfig {piece: String::from("rook"), white: false, column: 7, row: 7},
      PieceConfig {piece: String::from("rook"), white: false, column: 4, row: 0}
    ],
    rows: 8,
    columns: 8
  };

  let mut board = Board::new(&board_config);
  let current_board = &board.get_current_board();

  // Excluding unnecessary positions from attacks vector for simplicity
  let attacks = vec![Position{row:7, column:4}];

  assert_eq!(is_king_short_castle_valid(&Position{row:7, column:4}, current_board, &attacks), false);
}

#[test]
fn some_rook_move_long_castle_black() {
  let board_config = config::BoardConfig {
    pieces: vec![
      PieceConfig {piece: String::from("king"), white: false, column: 4, row: 7},
      PieceConfig {piece: String::from("rook"), white: false, column: 0, row: 7}
    ],
    rows: 8,
    columns: 8
  };

  let mut board = Board::new(&board_config);
  let current_board = &board.get_current_board();

  let piece_move = PieceMove { start: Position{row:7, column:4}, end: Position{row:7, column:2}, promotion: None };

  let rook_move = get_castle_move(&piece_move, current_board);

  assert!(rook_move.is_some());

  let r_move = rook_move.as_ref().unwrap();
  assert_eq!(r_move.start, Position{row:7, column:0});
  assert_eq!(r_move.end, Position{row:7, column:3});
}

#[test]
fn some_rook_move_long_castle_white() {
  let board_config = config::BoardConfig {
    pieces: vec![
      PieceConfig {piece: String::from("king"), white: true, column: 4, row: 0},
      PieceConfig {piece: String::from("rook"), white: true, column: 0, row: 0}
    ],
    rows: 8,
    columns: 8
  };

  let mut board = Board::new(&board_config);
  let current_board = &board.get_current_board();

  let piece_move = PieceMove { start: Position{row:0, column:4}, end: Position{row:0, column:2}, promotion: None };

  let rook_move = get_castle_move(&piece_move, current_board);

  assert!(rook_move.is_some());

  let r_move = rook_move.as_ref().unwrap();
  assert_eq!(r_move.start, Position{row:0, column:0});
  assert_eq!(r_move.end, Position{row:0, column:3});
}

#[test]
fn some_rook_move_short_castle_black() {
  let board_config = config::BoardConfig {
    pieces: vec![
      PieceConfig {piece: String::from("king"), white: false, column: 4, row: 7},
      PieceConfig {piece: String::from("rook"), white: false, column: 7, row: 7}
    ],
    rows: 8,
    columns: 8
  };

  let mut board = Board::new(&board_config);
  let current_board = &board.get_current_board();

  let piece_move = PieceMove { start: Position{row:7, column:4}, end: Position{row:7, column:6}, promotion: None };

  let rook_move = get_castle_move(&piece_move, current_board);

  assert!(rook_move.is_some());

  let r_move = rook_move.as_ref().unwrap();
  assert_eq!(r_move.start, Position{row:7, column:7});
  assert_eq!(r_move.end, Position{row:7, column:5});
}

#[test]
fn some_rook_move_short_castle_white() {
  let board_config = config::BoardConfig {
    pieces: vec![
      PieceConfig {piece: String::from("king"), white: true, column: 4, row: 0},
      PieceConfig {piece: String::from("rook"), white: true, column: 7, row: 0}
    ],
    rows: 8,
    columns: 8
  };

  let mut board = Board::new(&board_config);
  let current_board = &board.get_current_board();

  let piece_move = PieceMove { start: Position{row:0, column:4}, end: Position{row:0, column:6}, promotion: None };

  let rook_move = get_castle_move(&piece_move, current_board);

  assert!(rook_move.is_some());

  let r_move = rook_move.as_ref().unwrap();
  assert_eq!(r_move.start, Position{row:0, column:7});
  assert_eq!(r_move.end, Position{row:0, column:5});
}

#[test]
fn none_rook_move_long_castle_black_no_castle() {
  let board_config = config::BoardConfig {
    pieces: vec![
      PieceConfig {piece: String::from("king"), white: false, column: 4, row: 7},
      PieceConfig {piece: String::from("rook"), white: false, column: 0, row: 7}
    ],
    rows: 8,
    columns: 8
  };

  let mut board = Board::new(&board_config);
  let current_board = &board.get_current_board();

  let piece_move = PieceMove { start: Position{row:7, column:4}, end: Position{row:7, column:3}, promotion: None };

  let rook_move = get_castle_move(&piece_move, current_board);

  assert!(rook_move.is_none());
}

#[test]
fn none_rook_move_long_castle_white_no_castle() {
  let board_config = config::BoardConfig {
    pieces: vec![
      PieceConfig {piece: String::from("king"), white: true, column: 4, row: 0},
      PieceConfig {piece: String::from("rook"), white: true, column: 0, row: 0}
    ],
    rows: 8,
    columns: 8
  };

  let mut board = Board::new(&board_config);
  let current_board = &board.get_current_board();

  let piece_move = PieceMove { start: Position{row:0, column:4}, end: Position{row:0, column:3}, promotion: None };

  let rook_move = get_castle_move(&piece_move, current_board);

  assert!(rook_move.is_none());
}

#[test]
fn none_rook_move_short_castle_black_no_castle() {
  let board_config = config::BoardConfig {
    pieces: vec![
      PieceConfig {piece: String::from("king"), white: false, column: 4, row: 7},
      PieceConfig {piece: String::from("rook"), white: false, column: 7, row: 7}
    ],
    rows: 8,
    columns: 8
  };

  let mut board = Board::new(&board_config);
  let current_board = &board.get_current_board();

  let piece_move = PieceMove { start: Position{row:7, column:4}, end: Position{row:7, column:5}, promotion: None };

  let rook_move = get_castle_move(&piece_move, current_board);

  assert!(rook_move.is_none());
}

#[test]
fn none_rook_move_short_castle_white_no_castle() {
  let board_config = config::BoardConfig {
    pieces: vec![
      PieceConfig {piece: String::from("king"), white: true, column: 4, row: 0},
      PieceConfig {piece: String::from("rook"), white: true, column: 7, row: 0}
    ],
    rows: 8,
    columns: 8
  };

  let mut board = Board::new(&board_config);
  let current_board = &board.get_current_board();

  let piece_move = PieceMove { start: Position{row:0, column:4}, end: Position{row:0, column:5}, promotion: None };

  let rook_move = get_castle_move(&piece_move, current_board);

  assert!(rook_move.is_none());
}

#[test]
fn none_rook_move_long_castle_black_not_king() {
  let board_config = config::BoardConfig {
    pieces: vec![
      PieceConfig {piece: String::from("king"), white: false, column: 4, row: 7},
      PieceConfig {piece: String::from("rook"), white: false, column: 0, row: 7},
      PieceConfig {piece: String::from("pawn"), white: false, column: 0, row: 6}
    ],
    rows: 8,
    columns: 8
  };

  let mut board = Board::new(&board_config);
  let current_board = &board.get_current_board();

  let piece_move = PieceMove { start: Position{row:6, column:0}, end: Position{row:5, column:0}, promotion: None };

  let rook_move = get_castle_move(&piece_move, current_board);

  assert!(rook_move.is_none());
}

#[test]
fn none_rook_move_long_castle_white_not_king() {
  let board_config = config::BoardConfig {
    pieces: vec![
      PieceConfig {piece: String::from("king"), white: true, column: 4, row: 0},
      PieceConfig {piece: String::from("rook"), white: true, column: 0, row: 0},
      PieceConfig {piece: String::from("pawn"), white: true, column: 0, row: 1}
    ],
    rows: 8,
    columns: 8
  };

  let mut board = Board::new(&board_config);
  let current_board = &board.get_current_board();

  let piece_move = PieceMove { start: Position{row:1, column:0}, end: Position{row:2, column:0}, promotion: None };

  let rook_move = get_castle_move(&piece_move, current_board);

  assert!(rook_move.is_none());
}

#[test]
fn none_rook_move_short_castle_black_not_king() {
  let board_config = config::BoardConfig {
    pieces: vec![
      PieceConfig {piece: String::from("king"), white: false, column: 4, row: 7},
      PieceConfig {piece: String::from("rook"), white: false, column: 7, row: 7},
      PieceConfig {piece: String::from("pawn"), white: false, column: 0, row: 6}
    ],
    rows: 8,
    columns: 8
  };

  let mut board = Board::new(&board_config);
  let current_board = &board.get_current_board();

  let piece_move = PieceMove { start: Position{row:6, column:0}, end: Position{row:5, column:0}, promotion: None };

  let rook_move = get_castle_move(&piece_move, current_board);

  assert!(rook_move.is_none());
}

#[test]
fn none_rook_move_short_castle_white_not_king() {
  let board_config = config::BoardConfig {
    pieces: vec![
      PieceConfig {piece: String::from("king"), white: true, column: 4, row: 0},
      PieceConfig {piece: String::from("rook"), white: true, column: 7, row: 0},
      PieceConfig {piece: String::from("pawn"), white: true, column: 0, row: 1}
    ],
    rows: 8,
    columns: 8
  };

  let mut board = Board::new(&board_config);
  let current_board = &board.get_current_board();

  let piece_move = PieceMove { start: Position{row:1, column:0}, end: Position{row:2, column:0}, promotion: None };

  let rook_move = get_castle_move(&piece_move, current_board);

  assert!(rook_move.is_none());
}

