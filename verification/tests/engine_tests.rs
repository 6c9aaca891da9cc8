use chess::board::{config_is_valid, Board};
use chess::config::{default_config, BoardConfig, GameConfig, PieceConfig};
use chess::controller::Controller;
use chess::evaluator::evaluate;
use chess::game::{Game, GameState};
use chess::move_map::MoveMap;
use chess::piece_move::PieceMove;
use chess::pieces::get_move_data;
use chess::pieces::king::get_king_move_data;
use chess::pieces::pawn::{get_en_passant_move, get_pawn_move_data};
use chess::pieces::piece::{get_promotion_piece, Piece};
use chess::pieces::rook::get_rook_move_data;
use chess::position::Position;

fn piece(name: &str, white: bool, row: usize, column: usize) -> PieceConfig {
    PieceConfig { piece: String::from(name), white, row, column }
}

fn config(pieces: Vec<PieceConfig>, white_turn: bool) -> GameConfig {
    GameConfig {
        initial_board: BoardConfig { pieces, rows: 8, columns: 8 },
        white_long_castle: true,
        white_short_castle: true,
        black_long_castle: true,
        black_short_castle: true,
        white_turn,
    }
}

fn at(row: usize, column: usize) -> Position {
    Position { row, column }
}

fn step(start: Position, end: Position) -> PieceMove {
    PieceMove { start, end, promotion: None }
}

fn starting_position() -> Vec<PieceConfig> {
    let back = ["rook", "knight", "bishop", "queen", "king", "bishop", "knight", "rook"];
    let mut pieces = Vec::new();
    for column in 0..8 {
        pieces.push(piece(back[column], true, 0, column));
        pieces.push(piece("pawn", true, 1, column));
        pieces.push(piece("pawn", false, 6, column));
        pieces.push(piece(back[column], false, 7, column));
    }
    pieces
}

#[test]
fn board_places_moves_and_clears() {
    let board_config = BoardConfig {
        pieces: vec![piece("rook", true, 0, 0), piece("pawn", false, 0, 0), piece("king", false, 2, 1)],
        rows: 3,
        columns: 2,
    };
    assert!(config_is_valid(&board_config));
    let mut board = Board::new(&board_config);
    let cells = board.get_current_board();
    assert_eq!(cells.len(), 3);
    assert_eq!(cells[0].len(), 2);
    assert_eq!(cells[0][0], Some(Piece::Pawn(false)));
    assert_eq!(cells[2][1], Some(Piece::King(false)));
    assert_eq!(cells[1][1], None);

    let cells = board.move_piece(&at(0, 0), &at(2, 1));
    assert_eq!(cells[0][0], None);
    assert_eq!(cells[2][1], Some(Piece::Pawn(false)));

    let cells = board.set_position(&at(1, 0), Some(Piece::Queen(true)));
    assert_eq!(cells[1][0], Some(Piece::Queen(true)));

    let cells = board.clear_position(&at(2, 1));
    assert_eq!(cells[2][1], None);
    assert_eq!(cells[1][0], Some(Piece::Queen(true)));
}

#[test]
fn config_with_unknown_piece_or_square_is_not_valid() {
    let unknown = BoardConfig { pieces: vec![piece("dragon", true, 0, 0)], rows: 8, columns: 8 };
    assert!(!config_is_valid(&unknown));
    let outside_row = BoardConfig { pieces: vec![piece("pawn", true, 8, 0)], rows: 8, columns: 8 };
    assert!(!config_is_valid(&outside_row));
    let outside_column = BoardConfig { pieces: vec![piece("pawn", true, 0, 8)], rows: 8, columns: 8 };
    assert!(!config_is_valid(&outside_column));
    let fine = BoardConfig { pieces: vec![piece("pawn", true, 7, 7)], rows: 8, columns: 8 };
    assert!(config_is_valid(&fine));
}

#[test]
fn promotion_letters() {
    assert_eq!(get_promotion_piece(&String::from("B"), true), Some(Piece::Bishop(true)));
    assert_eq!(get_promotion_piece(&String::from("N"), false), Some(Piece::Knight(false)));
    assert_eq!(get_promotion_piece(&String::from("Q"), true), Some(Piece::Queen(true)));
    assert_eq!(get_promotion_piece(&String::from("R"), false), Some(Piece::Rook(false)));
    assert_eq!(get_promotion_piece(&String::from("K"), true), None);
    assert_eq!(get_promotion_piece(&String::from("QQ"), true), None);
    assert_eq!(get_promotion_piece(&String::from(""), true), None);
}

#[test]
fn move_map_keeps_the_last_entry_of_a_square() {
    let mut map = MoveMap::new();
    assert!(map.get(&at(1, 1)).is_none());
    map.insert(at(1, 1), vec![at(2, 1)]);
    map.insert(at(0, 0), vec![]);
    map.insert(at(1, 1), vec![at(3, 1), at(2, 1)]);
    assert_eq!(map.get(&at(1, 1)), Some(&vec![at(3, 1), at(2, 1)]));
    assert!(map.contains_key(&at(0, 0)));
    assert!(!map.contains_key(&at(5, 5)));
    assert!(map.allows(&at(1, 1), &at(3, 1)));
    assert!(!map.allows(&at(0, 0), &at(3, 1)));
    let copy = map.copy();
    assert_eq!(copy.get(&at(1, 1)), Some(&vec![at(3, 1), at(2, 1)]));
}

#[test]
fn rook_stops_at_the_first_piece_in_each_direction() {
    let board_config = BoardConfig {
        pieces: vec![
            piece("rook", true, 3, 3),
            piece("pawn", false, 3, 5),
            piece("pawn", false, 3, 6),
            piece("pawn", true, 5, 3),
            piece("pawn", false, 6, 3),
        ],
        rows: 8,
        columns: 8,
    };
    let mut board = Board::new(&board_config);
    let cells = board.get_current_board();
    let data = get_rook_move_data(&at(3, 3), &cells);
    assert_eq!(
        data.valid_moves,
        vec![at(2, 3), at(1, 3), at(0, 3), at(4, 3), at(3, 2), at(3, 1), at(3, 0), at(3, 4), at(3, 5)]
    );
    assert_eq!(data.attacks, data.valid_moves);
    assert_eq!(data.defends, vec![at(5, 3)]);
    assert!(data.pins.is_empty());
    assert!(data.checking_path.is_none());
}

#[test]
fn a_piece_behind_a_pin_candidate_that_is_no_king_clears_the_pin() {
    let board_config = BoardConfig {
        pieces: vec![
            piece("rook", true, 0, 0),
            piece("pawn", false, 0, 2),
            piece("knight", false, 0, 4),
            piece("king", false, 0, 6),
        ],
        rows: 8,
        columns: 8,
    };
    let mut board = Board::new(&board_config);
    let cells = board.get_current_board();
    let data = get_rook_move_data(&at(0, 0), &cells);
    assert!(data.pins.is_empty());
    assert!(data.checking_path.is_none());
    assert!(data.valid_moves.contains(&at(0, 2)));
    assert!(!data.valid_moves.contains(&at(0, 3)));
}

#[test]
fn kings_side_by_side_give_an_empty_checking_path() {
    let board_config = BoardConfig {
        pieces: vec![piece("king", true, 3, 3), piece("king", false, 3, 4)],
        rows: 8,
        columns: 8,
    };
    let mut board = Board::new(&board_config);
    let cells = board.get_current_board();
    let data = get_king_move_data(&at(3, 3), &cells);
    assert_eq!(data.checking_path, Some(vec![]));
    assert!(data.valid_moves.contains(&at(3, 4)));
}

#[test]
fn black_pawn_advances_two_rows_from_the_last_row_but_one() {
    let board_config = BoardConfig { pieces: vec![piece("pawn", false, 8, 2)], rows: 10, columns: 8 };
    let mut board = Board::new(&board_config);
    let cells = board.get_current_board();
    let data = get_pawn_move_data(&at(8, 2), &cells, &None);
    assert_eq!(data.valid_moves, vec![at(7, 2), at(6, 2)]);
    assert_eq!(data.attacks, vec![at(7, 1), at(7, 3)]);
}

#[test]
fn pawn_on_the_edge_attacks_one_square() {
    let board_config = BoardConfig {
        pieces: vec![piece("pawn", true, 1, 0), piece("pawn", false, 2, 0)],
        rows: 8,
        columns: 8,
    };
    let mut board = Board::new(&board_config);
    let cells = board.get_current_board();
    let data = get_pawn_move_data(&at(1, 0), &cells, &None);
    assert!(data.valid_moves.is_empty());
    assert_eq!(data.attacks, vec![at(2, 1)]);
    let general = get_move_data(&at(1, 0), &cells, &None);
    assert_eq!(general.attacks, vec![at(2, 1)]);
    assert_eq!(general.position, at(1, 0));
}

#[test]
fn en_passant_takes_the_pawn_beside() {
    let mut game = Game::new(config(
        vec![
            piece("king", true, 0, 4),
            piece("king", false, 7, 4),
            piece("pawn", true, 4, 2),
            piece("pawn", false, 6, 1),
        ],
        false,
    ));
    assert!(game.initialise_game_state().is_ok());
    assert!(game.validate_move(&step(at(6, 1), at(4, 1))));
    assert!(game.perform_move(step(at(6, 1), at(4, 1))).is_ok());

    let state = game.get_state();
    assert!(state.white_turn);
    assert!(state.valid_moves.allows(&at(4, 2), &at(5, 1)));
    let cells = game.get_current_board();
    assert_eq!(get_en_passant_move(&step(at(4, 2), at(5, 1)), &cells), Some(at(4, 1)));
    assert_eq!(get_en_passant_move(&step(at(4, 2), at(5, 2)), &cells), None);

    assert!(game.validate_move(&step(at(4, 2), at(5, 1))));
    let result = game.perform_move(step(at(4, 2), at(5, 1)));
    assert!(result.is_ok());
    let cells = game.get_current_board();
    assert_eq!(cells[4][1], None);
    assert_eq!(cells[4][2], None);
    assert_eq!(cells[5][1], Some(Piece::Pawn(true)));
}

#[test]
fn a_bishop_moving_to_an_empty_square_takes_nothing() {
    let mut game = Game::new(config(starting_position(), true));
    assert!(game.initialise_game_state().is_ok());
    assert!(game.perform_move(step(at(1, 4), at(3, 4))).is_ok());
    assert!(game.perform_move(step(at(6, 4), at(4, 4))).is_ok());
    assert!(game.perform_move(step(at(0, 5), at(3, 2))).is_ok());
    let cells = game.get_current_board();
    assert_eq!(cells[0][2], Some(Piece::Bishop(true)));
    assert_eq!(cells[3][2], Some(Piece::Bishop(true)));
    assert_eq!(cells[0][5], None);
}

#[test]
fn short_castle_moves_king_and_rook_and_ends_the_rights() {
    let mut game = Game::new(config(
        vec![
            piece("king", true, 0, 4),
            piece("rook", true, 0, 7),
            piece("rook", true, 0, 0),
            piece("king", false, 7, 4),
        ],
        true,
    ));
    assert!(game.initialise_game_state().is_ok());
    let state = game.get_state();
    assert!(state.valid_moves.allows(&at(0, 4), &at(0, 6)));
    assert!(state.valid_moves.allows(&at(0, 4), &at(0, 2)));

    assert!(game.validate_move(&step(at(0, 4), at(0, 6))));
    assert!(game.perform_move(step(at(0, 4), at(0, 6))).is_ok());
    let cells = game.get_current_board();
    assert_eq!(cells[0][6], Some(Piece::King(true)));
    assert_eq!(cells[0][5], Some(Piece::Rook(true)));
    assert_eq!(cells[0][4], None);
    assert_eq!(cells[0][7], None);
    assert_eq!(cells[0][0], Some(Piece::Rook(true)));
    let state = game.get_state();
    assert!(!state.white_long_castle);
    assert!(!state.white_short_castle);
    assert!(state.black_long_castle);
    assert!(state.black_short_castle);
    assert!(!state.white_turn);
}

#[test]
fn a_rook_that_leaves_its_file_ends_one_right() {
    let mut game = Game::new(config(
        vec![
            piece("king", true, 0, 4),
            piece("rook", true, 0, 7),
            piece("rook", true, 0, 0),
            piece("king", false, 7, 4),
            piece("rook", false, 7, 0),
        ],
        true,
    ));
    assert!(game.initialise_game_state().is_ok());
    assert!(game.perform_move(step(at(0, 0), at(0, 1))).is_ok());
    let state = game.get_state();
    assert!(!state.white_long_castle);
    assert!(state.white_short_castle);
    assert!(game.perform_move(step(at(7, 0), at(6, 0))).is_ok());
    let state = game.get_state();
    assert!(!state.black_long_castle);
    assert!(state.black_short_castle);
    assert!(!state.valid_moves.allows(&at(0, 4), &at(0, 2)));
    assert!(state.valid_moves.allows(&at(0, 4), &at(0, 6)));
}

#[test]
fn castle_without_the_right_is_not_legal() {
    let mut game_config = config(
        vec![piece("king", true, 0, 4), piece("rook", true, 0, 7), piece("king", false, 7, 4)],
        true,
    );
    game_config.white_short_castle = false;
    let mut game = Game::new(game_config);
    assert!(game.initialise_game_state().is_ok());
    assert!(!game.get_state().valid_moves.allows(&at(0, 4), &at(0, 6)));
    assert!(game.get_state().valid_moves.allows(&at(0, 4), &at(0, 5)));
}

#[test]
fn a_pinned_piece_has_no_legal_move() {
    let mut game = Game::new(config(
        vec![
            piece("king", true, 0, 0),
            piece("rook", true, 2, 4),
            piece("pawn", false, 4, 4),
            piece("king", false, 5, 4),
        ],
        false,
    ));
    assert!(game.initialise_game_state().is_ok());
    let state = game.get_state();
    assert!(matches!(state.game_state, GameState::Active));
    assert!(!state.in_check);
    assert!(state.valid_moves.get(&at(4, 4)).is_none());
    assert!(state.valid_moves.contains_key(&at(5, 4)));
}

#[test]
fn in_check_only_moves_that_end_the_check_are_legal() {
    let mut game = Game::new(config(
        vec![
            piece("king", true, 0, 0),
            piece("rook", true, 0, 4),
            piece("king", false, 7, 4),
            piece("rook", false, 5, 0),
            piece("knight", false, 7, 1),
        ],
        false,
    ));
    assert!(game.initialise_game_state().is_ok());
    let state = game.get_state();
    assert!(state.in_check);
    assert!(matches!(state.game_state, GameState::Active));
    assert_eq!(state.valid_moves.get(&at(5, 0)), Some(&vec![at(5, 4)]));
    assert!(state.valid_moves.get(&at(7, 1)).is_none());
    let king = state.valid_moves.get(&at(7, 4)).unwrap();
    assert!(king.contains(&at(7, 3)));
    assert!(king.contains(&at(6, 5)));
    assert!(!king.contains(&at(6, 4)));
}

#[test]
fn double_check_leaves_only_the_king_to_move() {
    let mut game = Game::new(config(
        vec![
            piece("king", true, 0, 0),
            piece("rook", true, 0, 4),
            piece("knight", true, 5, 3),
            piece("king", false, 7, 4),
            piece("rook", false, 5, 0),
        ],
        false,
    ));
    assert!(game.initialise_game_state().is_ok());
    let state = game.get_state();
    assert!(state.in_check);
    assert!(matches!(state.game_state, GameState::Active));
    assert!(state.valid_moves.get(&at(5, 0)).is_none());
    assert!(!state.valid_moves.get(&at(7, 4)).unwrap().is_empty());
}

#[test]
fn three_checkers_are_an_error() {
    let board_config = BoardConfig {
        pieces: vec![
            piece("king", true, 0, 0),
            piece("rook", true, 0, 4),
            piece("knight", true, 5, 3),
            piece("bishop", true, 5, 6),
            piece("king", false, 7, 4),
        ],
        rows: 8,
        columns: 8,
    };
    let mut board = Board::new(&board_config);
    let cells = board.get_current_board();
    let evaluation = evaluate(true, &cells, false, false, &None);
    assert!(matches!(evaluation.game_state, GameState::Error));
    assert!(!evaluation.in_check);
    assert!(evaluation.valid_moves.get(&at(7, 4)).is_none());
}

#[test]
fn the_vacated_square_has_no_legal_moves() {
    let mut game = Game::new(config(starting_position(), true));
    assert!(game.initialise_game_state().is_ok());
    assert!(game.get_state().valid_moves.contains_key(&at(1, 4)));
    assert!(game.perform_move(step(at(1, 4), at(3, 4))).is_ok());
    let state = game.get_state();
    assert!(state.valid_moves.get(&at(1, 4)).is_none());
    assert!(game.perform_move(step(at(6, 4), at(4, 4))).is_ok());
    let state = game.get_state();
    assert!(state.valid_moves.get(&at(1, 4)).is_none());
    assert!(state.valid_moves.get(&at(3, 4)).is_none());
    assert!(state.valid_moves.contains_key(&at(1, 3)));
}

#[test]
fn evaluating_twice_changes_nothing() {
    let mut game = Game::new(config(starting_position(), true));
    assert!(game.initialise_game_state().is_ok());
    let first = game.get_state();
    let cells = game.get_current_board();
    game.update_game_state(false, &cells);
    let second = game.get_state();
    for row in 0..8 {
        for column in 0..8 {
            assert_eq!(first.valid_moves.get(&at(row, column)), second.valid_moves.get(&at(row, column)));
        }
    }
    assert_eq!(first.in_check, second.in_check);
    assert_eq!(first.game_state, second.game_state);
    assert_eq!(second.valid_moves.get(&at(1, 4)), Some(&vec![at(2, 4), at(3, 4)]));
    assert_eq!(second.valid_moves.get(&at(0, 1)), Some(&vec![at(2, 2), at(2, 0)]));
    assert!(second.valid_moves.get(&at(0, 0)).is_none());
    assert_eq!(second.valid_moves.get(&at(0, 4)), Some(&vec![]));
}

#[test]
fn a_mirrored_checkmate_is_a_checkmate_for_the_other_side() {
    let white_mates = vec![
        piece("king", true, 5, 6),
        piece("queen", true, 6, 6),
        piece("king", false, 7, 6),
    ];
    let mut board = Board::new(&BoardConfig { pieces: white_mates, rows: 8, columns: 8 });
    let cells = board.get_current_board();
    let evaluation = evaluate(true, &cells, false, false, &None);
    assert!(matches!(evaluation.game_state, GameState::WhiteWin));
    assert!(evaluation.in_check);

    let black_mates = vec![
        piece("king", false, 2, 6),
        piece("queen", false, 1, 6),
        piece("king", true, 0, 6),
    ];
    let mut board = Board::new(&BoardConfig { pieces: black_mates, rows: 8, columns: 8 });
    let cells = board.get_current_board();
    let evaluation = evaluate(false, &cells, false, false, &None);
    assert!(matches!(evaluation.game_state, GameState::BlackWin));
    assert!(evaluation.in_check);
}

#[test]
fn a_move_that_cannot_be_made_is_refused() {
    let mut game = Game::new(config(starting_position(), true));
    assert!(game.initialise_game_state().is_ok());
    assert_eq!(game.perform_move(step(at(8, 0), at(3, 0))).err(), Some("The move leaves the board."));
    assert_eq!(game.perform_move(step(at(1, 0), at(3, 8))).err(), Some("The move leaves the board."));
    assert_eq!(game.perform_move(step(at(3, 3), at(4, 3))).err(), Some("No piece stands on the square."));
    assert_eq!(
        game.perform_move(PieceMove { start: at(1, 0), end: at(2, 0), promotion: Some(String::from("K")) }).err(),
        Some("The promotion names no piece.")
    );
    let state = game.get_state();
    assert!(state.white_turn);
    assert!(state.last_move.is_none());
    assert_eq!(game.get_current_board()[1][0], Some(Piece::Pawn(true)));
}

#[test]
fn the_controller_rejects_what_is_not_legal() {
    let mut controller = Controller::new(config(starting_position(), true));
    assert!(controller.initialise_game().is_ok());
    assert_eq!(controller.process_move(step(at(1, 4), at(4, 4))).err(), Some("Move validation failed."));
    assert_eq!(controller.process_move(step(at(6, 4), at(4, 4))).err(), Some("Move validation failed."));
    assert!(controller
        .process_move(PieceMove { start: at(1, 4), end: at(3, 4), promotion: Some(String::from("Q")) })
        .is_err());
    assert!(controller.get_game().get_state().white_turn);
    assert_eq!(controller.get_game().get_current_board()[1][4], Some(Piece::Pawn(true)));

    let result = controller.process_move(step(at(1, 4), at(3, 4)));
    assert!(result.is_ok());
    let outcome = result.unwrap();
    assert_eq!(outcome.board[3][4], Some(Piece::Pawn(true)));
    assert!(!outcome.game_state.white_turn);
    assert!(matches!(outcome.game_state.game_state, GameState::Active));
}

#[test]
fn a_promotion_must_name_its_piece() {
    let mut controller = Controller::new(config(
        vec![
            piece("king", false, 7, 7),
            piece("king", true, 0, 0),
            piece("pawn", true, 6, 2),
        ],
        true,
    ));
    assert!(controller.initialise_game().is_ok());
    assert!(controller.process_move(step(at(6, 2), at(7, 2))).is_err());
    assert!(controller
        .process_move(PieceMove { start: at(6, 2), end: at(7, 2), promotion: Some(String::from("K")) })
        .is_err());
    assert!(controller
        .process_move(PieceMove { start: at(0, 0), end: at(0, 1), promotion: Some(String::from("Q")) })
        .is_err());
    let result = controller
        .process_move(PieceMove { start: at(6, 2), end: at(7, 2), promotion: Some(String::from("N")) });
    assert!(result.is_ok());
    assert_eq!(result.unwrap().board[7][2], Some(Piece::Knight(true)));
}

#[test]
fn no_move_is_accepted_after_an_error() {
    let mut controller = Controller::new(config(vec![piece("rook", true, 0, 1), piece("king", false, 7, 0)], true));
    let result = controller.initialise_game();
    assert!(result.is_ok());
    assert!(matches!(result.unwrap().game_state.game_state, GameState::Error));
    assert!(controller.process_move(step(at(0, 1), at(1, 1))).is_err());
}

#[test]
fn the_default_configuration_is_the_starting_position() {
    let game_config = default_config();
    assert!(config_is_valid(&game_config.initial_board));
    assert_eq!(game_config.initial_board.pieces.len(), 32);
    assert!(game_config.white_turn);
    assert!(game_config.white_long_castle && game_config.white_short_castle);
    assert!(game_config.black_long_castle && game_config.black_short_castle);
    let mut board = Board::new(&game_config.initial_board);
    let cells = board.get_current_board();
    let white = [
        Piece::Rook(true),
        Piece::Knight(true),
        Piece::Bishop(true),
        Piece::Queen(true),
        Piece::King(true),
        Piece::Bishop(true),
        Piece::Knight(true),
        Piece::Rook(true),
    ];
    let black = [
        Piece::Rook(false),
        Piece::Knight(false),
        Piece::Bishop(false),
        Piece::Queen(false),
        Piece::King(false),
        Piece::Bishop(false),
        Piece::Knight(false),
        Piece::Rook(false),
    ];
    for column in 0..8 {
        assert_eq!(cells[0][column], Some(white[column]));
        assert_eq!(cells[1][column], Some(Piece::Pawn(true)));
        assert_eq!(cells[6][column], Some(Piece::Pawn(false)));
        assert_eq!(cells[7][column], Some(black[column]));
        for row in 2..6 {
            assert_eq!(cells[row][column], None);
        }
    }
}

#[test]
fn a_move_that_is_not_legal_changes_nothing() {
    let mut game = Game::new(config(vec![piece("king", true, 0, 4), piece("king", false, 7, 4)], true));
    assert!(game.initialise_game_state().is_ok());
    let before = game.get_state();

    // A king does not go five rows at once.
    assert!(!game.validate_move(&step(at(0, 4), at(5, 4))));
    let result = game.perform_move(step(at(0, 4), at(5, 4)));
    assert!(result.is_ok());
    let outcome = result.unwrap();
    assert_eq!(outcome.board[0][4], Some(Piece::King(true)));
    assert_eq!(outcome.board[5][4], None);
    assert!(outcome.game_state.white_turn);

    // The side that is not to move does not move.
    assert!(game.perform_move(step(at(7, 4), at(6, 4))).is_ok());
    // A move that is no promotion names no piece.
    assert!(game
        .perform_move(PieceMove { start: at(0, 4), end: at(1, 4), promotion: Some(String::from("Q")) })
        .is_ok());

    let after = game.get_state();
    let cells = game.get_current_board();
    assert_eq!(cells[0][4], Some(Piece::King(true)));
    assert_eq!(cells[7][4], Some(Piece::King(false)));
    assert_eq!(cells[1][4], None);
    assert_eq!(cells[5][4], None);
    assert_eq!(cells[6][4], None);
    assert!(after.white_turn);
    assert!(after.last_move.is_none());
    assert!(!after.in_check);
    assert_eq!(after.game_state, before.game_state);
    assert_eq!(after.white_long_castle, before.white_long_castle);
    assert_eq!(after.white_short_castle, before.white_short_castle);
    assert_eq!(after.black_long_castle, before.black_long_castle);
    assert_eq!(after.black_short_castle, before.black_short_castle);
    for row in 0..8 {
        for column in 0..8 {
            assert_eq!(before.valid_moves.get(&at(row, column)), after.valid_moves.get(&at(row, column)));
        }
    }
    assert_eq!(game.get_move_logger().moves.len(), 1);
    assert!(game.get_move_logger().moves[0].is_empty());
}

#[test]
fn no_move_is_made_after_a_checkmate() {
    let mut game = Game::new(config(starting_position(), true));
    assert!(game.initialise_game_state().is_ok());
    let moves = vec![
        step(at(1, 4), at(3, 4)),
        step(at(6, 4), at(4, 4)),
        step(at(0, 5), at(3, 2)),
        step(at(7, 1), at(5, 2)),
        step(at(0, 3), at(4, 7)),
        step(at(7, 6), at(5, 5)),
        step(at(4, 7), at(6, 5)),
    ];
    for piece_move in moves {
        assert!(game.perform_move(piece_move).is_ok());
    }
    assert_eq!(game.get_state().game_state, GameState::WhiteWin);
    let result = game.perform_move(step(at(7, 4), at(6, 5)));
    assert!(result.is_ok());
    let outcome = result.unwrap();
    assert_eq!(outcome.game_state.game_state, GameState::WhiteWin);
    assert!(!outcome.game_state.white_turn);
    assert_eq!(outcome.board[6][5], Some(Piece::Queen(true)));
    assert_eq!(outcome.board[7][4], Some(Piece::King(false)));
    assert_eq!(game.get_move_logger().moves.len(), 4);
    assert_eq!(game.get_move_logger().moves[3].len(), 1);
}

#[test]
fn a_plain_move_carries_the_piece_to_its_square() {
    let mut game = Game::new(config(starting_position(), true));
    assert!(game.initialise_game_state().is_ok());
    assert!(game.validate_move(&step(at(0, 6), at(2, 5))));
    let result = game.perform_move(step(at(0, 6), at(2, 5)));
    let outcome = result.unwrap();
    assert_eq!(outcome.board[0][6], None);
    assert_eq!(outcome.board[2][5], Some(Piece::Knight(true)));
    assert!(outcome.game_state.valid_moves.get(&at(0, 6)).is_none());
    assert!(!outcome.game_state.white_turn);
    for row in 0..8 {
        for column in 0..8 {
            if let Some(targets) = outcome.game_state.valid_moves.get(&at(row, column)) {
                assert!(!targets.contains(&at(row, column)));
            }
        }
    }
}
