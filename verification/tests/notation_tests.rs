use chess::config::{BoardConfig, GameConfig, PieceConfig};
use chess::game::Game;
use chess::move_logger::{
    calculate_pgn, check_ambiguity, get_castling_notation, get_file_mapping, get_piece_abbreviation,
    get_rank_mapping, MoveLogger,
};
use chess::move_map::MoveMap;
use chess::piece_move::PieceMove;
use chess::pieces::piece::Piece;
use chess::position::Position;

fn piece(name: &str, white: bool, row: usize, column: usize) -> PieceConfig {
    PieceConfig { piece: String::from(name), white, row, column }
}

fn config(pieces: Vec<PieceConfig>, white_turn: bool) -> GameConfig {
    GameConfig {
        initial_board: BoardConfig { pieces, rows: 8, columns: 8 },
        white_long_castle: true,
        white_short_castle: true,
        black_long_castle: true,
        black_short_castle: true,
        white_turn,
    }
}

fn at(row: usize, column: usize) -> Position {
    Position { row, column }
}

fn step(start: Position, end: Position) -> PieceMove {
    PieceMove { start, end, promotion: None }
}

fn notations(game: &Game) -> Vec<Vec<String>> {
    let mut all = Vec::new();
    for pair in &game.get_move_logger().moves {
        let mut texts = Vec::new();
        for logged in pair {
            texts.push(logged.pgn_notation.clone());
        }
        all.push(texts);
    }
    all
}

#[test]
fn files_ranks_and_letters() {
    assert_eq!(get_file_mapping(0), "a");
    assert_eq!(get_file_mapping(4), "e");
    assert_eq!(get_file_mapping(7), "h");
    assert_eq!(get_file_mapping(8), " ");
    assert_eq!(get_rank_mapping(0), "1");
    assert_eq!(get_rank_mapping(3), "4");
    assert_eq!(get_rank_mapping(7), "8");
    assert_eq!(get_rank_mapping(9), " ");
    assert_eq!(get_piece_abbreviation(&Piece::Bishop(true)), "B");
    assert_eq!(get_piece_abbreviation(&Piece::King(false)), "K");
    assert_eq!(get_piece_abbreviation(&Piece::Knight(true)), "N");
    assert_eq!(get_piece_abbreviation(&Piece::Pawn(true)), "");
    assert_eq!(get_piece_abbreviation(&Piece::Queen(false)), "Q");
    assert_eq!(get_piece_abbreviation(&Piece::Rook(true)), "R");
}

#[test]
fn castling_notation() {
    assert_eq!(get_castling_notation(&Piece::King(true), &step(at(0, 4), at(0, 6))), "O-O");
    assert_eq!(get_castling_notation(&Piece::King(false), &step(at(7, 4), at(7, 2))), "O-O-O");
    assert_eq!(get_castling_notation(&Piece::King(true), &step(at(0, 4), at(0, 5))), "");
    assert_eq!(get_castling_notation(&Piece::Rook(true), &step(at(0, 4), at(0, 6))), "");
}

#[test]
fn scholars_mate_is_logged_in_pairs() {
    let back = ["rook", "knight", "bishop", "queen", "king", "bishop", "knight", "rook"];
    let mut pieces = Vec::new();
    for column in 0..8 {
        pieces.push(piece(back[column], true, 0, column));
        pieces.push(piece("pawn", true, 1, column));
        pieces.push(piece("pawn", false, 6, column));
        pieces.push(piece(back[column], false, 7, column));
    }
    let mut game = Game::new(config(pieces, true));
    assert!(game.initialise_game_state().is_ok());
    let moves = vec![
        step(at(1, 4), at(3, 4)),
        step(at(6, 4), at(4, 4)),
        step(at(0, 5), at(3, 2)),
        step(at(7, 1), at(5, 2)),
        step(at(0, 3), at(4, 7)),
        step(at(7, 6), at(5, 5)),
        step(at(4, 7), at(6, 5)),
    ];
    for piece_move in moves {
        assert!(game.validate_move(&piece_move));
        assert!(game.perform_move(piece_move).is_ok());
    }
    assert_eq!(
        notations(&game),
        vec![vec!["e4", "e5"], vec!["Bc4", "Nc6"], vec!["Qh5", "Nf6"], vec!["Qf7#"]]
    );
    assert_eq!(game.get_move_logger().moves[3][0].piece_move.end, at(6, 5));
}

#[test]
fn castle_check_and_promotion_are_marked() {
    let mut game = Game::new(config(
        vec![
            piece("king", true, 0, 4),
            piece("rook", true, 0, 7),
            piece("pawn", true, 6, 0),
            piece("king", false, 7, 5),
            piece("pawn", false, 6, 7),
        ],
        true,
    ));
    assert!(game.initialise_game_state().is_ok());
    assert!(game.validate_move(&step(at(0, 4), at(0, 6))));
    assert!(game.perform_move(step(at(0, 4), at(0, 6))).is_ok());
    assert!(game.get_state().in_check);
    assert!(game.perform_move(step(at(7, 5), at(7, 6))).is_ok());
    let promotion = PieceMove { start: at(6, 0), end: at(7, 0), promotion: Some(String::from("Q")) };
    assert!(game.validate_move(&promotion));
    assert!(game.perform_move(promotion).is_ok());
    assert_eq!(notations(&game), vec![vec!["O-O+", "Kg8"], vec!["a8=Q+"]]);
}

#[test]
fn two_knights_are_told_apart_by_file() {
    let mut game = Game::new(config(
        vec![
            piece("king", true, 0, 4),
            piece("knight", true, 0, 1),
            piece("knight", true, 0, 5),
            piece("king", false, 7, 4),
        ],
        true,
    ));
    assert!(game.initialise_game_state().is_ok());
    assert!(game.perform_move(step(at(0, 1), at(1, 3))).is_ok());
    assert_eq!(notations(&game), vec![vec!["Nbd2"]]);
}

#[test]
fn two_rooks_on_one_file_are_told_apart_by_rank() {
    let mut game = Game::new(config(
        vec![
            piece("king", true, 0, 4),
            piece("rook", true, 0, 0),
            piece("rook", true, 4, 0),
            piece("king", false, 7, 7),
        ],
        true,
    ));
    assert!(game.initialise_game_state().is_ok());
    assert!(game.perform_move(step(at(0, 0), at(2, 0))).is_ok());
    assert_eq!(notations(&game), vec![vec!["R1a3"]]);
}

#[test]
fn ambiguity_goes_by_the_first_rival_found() {
    let cells = vec![
        vec![None, None, Some(Piece::Rook(true))],
        vec![None, None, None],
        vec![Some(Piece::Rook(true)), None, Some(Piece::Rook(true))],
    ];
    let mut legal = MoveMap::new();
    legal.insert(at(2, 0), vec![at(2, 1)]);
    legal.insert(at(0, 2), vec![at(1, 2)]);
    let king_side = step(at(2, 1), at(2, 2));
    assert_eq!(check_ambiguity(&Piece::Rook(true), &step(at(2, 2), at(2, 1)), &cells, &legal), (true, false));
    assert_eq!(check_ambiguity(&Piece::Rook(true), &step(at(2, 0), at(2, 1)), &cells, &legal), (false, true));
    assert_eq!(check_ambiguity(&Piece::Rook(true), &step(at(2, 2), at(1, 2)), &cells, &legal), (false, true));
    assert_eq!(check_ambiguity(&Piece::Rook(false), &step(at(2, 2), at(2, 1)), &cells, &legal), (false, false));
    assert_eq!(check_ambiguity(&Piece::King(true), &king_side, &cells, &legal), (false, false));
    assert_eq!(check_ambiguity(&Piece::Rook(true), &step(at(2, 2), at(0, 0)), &cells, &legal), (false, false));
}

#[test]
fn notation_of_a_single_move() {
    let mut game = Game::new(config(vec![piece("king", true, 0, 4), piece("king", false, 7, 4)], true));
    assert!(game.initialise_game_state().is_ok());
    let legal = game.get_state().valid_moves;
    assert!(game.perform_move(step(at(0, 4), at(1, 4))).is_ok());
    let cells = game.get_current_board();
    let state = game.get_state();
    assert_eq!(calculate_pgn(&step(at(0, 4), at(1, 4)), &cells, &state, &legal), "Ke2");
}

#[test]
fn logger_starts_a_pair_after_two_moves() {
    let cells = vec![vec![Some(Piece::King(true)), Some(Piece::King(false)), None, None]];
    let mut game = Game::new(GameConfig {
        initial_board: BoardConfig {
            pieces: vec![piece("king", true, 0, 0), piece("king", false, 0, 3)],
            rows: 1,
            columns: 4,
        },
        white_long_castle: false,
        white_short_castle: false,
        black_long_castle: false,
        black_short_castle: false,
        white_turn: true,
    });
    assert!(game.initialise_game_state().is_ok());
    let state = game.get_state();
    let legal = MoveMap::new();
    let mut logger = MoveLogger::new(cells.clone());
    assert_eq!(logger.moves.len(), 1);
    assert!(logger.moves[0].is_empty());
    logger.add_move(step(at(0, 2), at(0, 0)), &cells, &state, &legal);
    logger.add_move(step(at(0, 2), at(0, 1)), &cells, &state, &legal);
    logger.add_move(step(at(0, 1), at(0, 0)), &cells, &state, &legal);
    assert_eq!(logger.moves.len(), 2);
    assert_eq!(logger.moves[0].len(), 2);
    assert_eq!(logger.moves[1].len(), 1);
    assert_eq!(logger.moves[0][0].pgn_notation, "O-O-O");
    assert_eq!(logger.moves[0][1].pgn_notation, "Kb1");
    assert_eq!(logger.moves[1][0].pgn_notation, "Ka1");
    assert_eq!(logger.initial_board, cells);
}
