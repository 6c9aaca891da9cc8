use vstd::prelude::*;
use crate::board::{
    config_fits, grid_view, is_on_board, on_board, piece_on, placed_grid, with_cell, with_move, Board,
};
use crate::config::GameConfig;
use crate::evaluator::{evaluate, evaluation_of, lemma_legal_moves_are_sound, lemma_legal_origin_is_opposing_piece};
use crate::move_logger::{log_with, notation, LoggedMoveView, MoveLogger};
use crate::move_map::MoveMap;
use crate::piece_move::{move_view, PieceMove, PieceMoveView};
use crate::pieces::king::{castle_rook_move, get_castle_move};
use crate::pieces::pawn::{en_passant_taken, en_passant_target, get_en_passant_move, pawn_data};
use crate::pieces::piece::{get_promotion_piece, promotion_piece, Piece};
use crate::board::{is_board, lemma_grid_view_is_board};
use crate::position::Position;

verus! {

/// The state of play.
#[derive(Clone, Copy, Debug, PartialEq, Eq, Structural)]
pub enum GameState {
    /// The game goes on.
    Active,
    /// Black has given checkmate.
    BlackWin,
    /// White has given checkmate.
    WhiteWin,
    /// The side to move has no legal move and is not in check.
    Stalemate,
    /// The position cannot be played on: a king is missing, or more than two pieces give check.
    Error,
}

/// Where a game stands, apart from the pieces on the board.
#[derive(Debug)]
pub struct State {
    /// Whether it is white's turn.
    pub white_turn: bool,
    /// The state of play.
    pub game_state: GameState,
    /// Whether white may still castle long.
    pub white_long_castle: bool,
    /// Whether white may still castle short.
    pub white_short_castle: bool,
    /// Whether black may still castle long.
    pub black_long_castle: bool,
    /// Whether black may still castle short.
    pub black_short_castle: bool,
    /// Whether the side to move is in check.
    pub in_check: bool,
    /// The legal moves of the side to move, by the square of the piece.
    pub valid_moves: MoveMap,
    /// The move made last.
    pub last_move: Option<PieceMove>,
}

/// The mathematical content of a [`State`].
pub struct StateView {
    pub white_turn: bool,
    pub game_state: GameState,
    pub white_long_castle: bool,
    pub white_short_castle: bool,
    pub black_long_castle: bool,
    pub black_short_castle: bool,
    pub in_check: bool,
    pub valid_moves: Map<Position, Seq<Position>>,
    pub last_move: Option<PieceMoveView>,
}

impl View for State {
    type V = StateView;

    open spec fn view(&self) -> StateView {
        StateView {
            white_turn: self.white_turn,
            game_state: self.game_state,
            white_long_castle: self.white_long_castle,
            white_short_castle: self.white_short_castle,
            black_long_castle: self.black_long_castle,
            black_short_castle: self.black_short_castle,
            in_check: self.in_check,
            valid_moves: self.valid_moves@,
            last_move: move_view(self.last_move),
        }
    }
}

impl Clone for State {
    fn clone(&self) -> (copy: State)
        ensures
            copy@ == self@,
    {
        State {
            white_turn: self.white_turn,
            game_state: self.game_state,
            white_long_castle: self.white_long_castle,
            white_short_castle: self.white_short_castle,
            black_long_castle: self.black_long_castle,
            black_short_castle: self.black_short_castle,
            in_check: self.in_check,
            valid_moves: self.valid_moves.copy(),
            last_move: match &self.last_move {
                Some(piece_move) => Some(piece_move.clone()),
                None => None,
            },
        }
    }
}

/// Whether the side that moves after a move of the side `white_turn` may still castle long.
pub open spec fn long_castle_left(state: StateView, white_turn: bool) -> bool {
    if white_turn {
        state.black_long_castle
    } else {
        state.white_long_castle
    }
}

/// Whether the side that moves after a move of the side `white_turn` may still castle short.
pub open spec fn short_castle_left(state: StateView, white_turn: bool) -> bool {
    if white_turn {
        state.black_short_castle
    } else {
        state.white_short_castle
    }
}

impl State {
    /// Whether the side that moves after a move of the side `white_turn` may still castle long.
    pub fn check_long_castle(&self, white_turn: bool) -> (left: bool)
        ensures
            left == long_castle_left(self@, white_turn),
    {
        (white_turn && self.black_long_castle) || (!white_turn && self.white_long_castle)
    }

    /// Whether the side that moves after a move of the side `white_turn` may still castle
    /// short.
    pub fn check_short_castle(&self, white_turn: bool) -> (left: bool)
        ensures
            left == short_castle_left(self@, white_turn),
    {
        (white_turn && self.black_short_castle) || (!white_turn && self.white_short_castle)
    }
}

/// The state after the board has been evaluated on behalf of the side `white_turn`, which has
/// just moved: the check, the legal moves and the state of play are those of the evaluation,
/// made with the rights to castle of the other side and the move made last.
pub open spec fn evaluated(state: StateView, grid: Seq<Seq<Option<Piece>>>, white_turn: bool) -> StateView {
    let evaluation = evaluation_of(
        grid,
        white_turn,
        long_castle_left(state, white_turn),
        short_castle_left(state, white_turn),
        state.last_move,
    );
    StateView {
        game_state: evaluation.game_state,
        in_check: evaluation.in_check,
        valid_moves: evaluation.valid_moves,
        ..state
    }
}

/// The rights to castle after a move: a rook that leaves the first file costs its side the
/// right to castle long, one that leaves the eighth file the right to castle short, and a king
/// that moves costs his side both. The side is the one to move.
pub open spec fn castling_after(
    state: StateView,
    grid: Seq<Seq<Option<Piece>>>,
    piece_move: PieceMoveView,
) -> StateView {
    let piece = piece_on(grid, piece_move.start);
    let rook = piece matches Some(Piece::Rook(_));
    let king = piece matches Some(Piece::King(_));
    let long = king || (rook && piece_move.start.column == 0);
    let short = king || (rook && piece_move.start.column == 7);
    StateView {
        white_long_castle: state.white_long_castle && !(state.white_turn && long),
        white_short_castle: state.white_short_castle && !(state.white_turn && short),
        black_long_castle: state.black_long_castle && !(!state.white_turn && long),
        black_short_castle: state.black_short_castle && !(!state.white_turn && short),
        ..state
    }
}

/// The last row for a side: the row on which its pawns are promoted.
pub open spec fn farthest_row(grid: Seq<Seq<Option<Piece>>>, white: bool) -> int {
    if white {
        grid.len() - 1
    } else {
        0
    }
}

/// Whether a move takes a pawn to the last row for the side `white_turn`.
pub open spec fn is_promotion(grid: Seq<Seq<Option<Piece>>>, white_turn: bool, piece_move: PieceMoveView) -> bool {
    piece_on(grid, piece_move.start) matches Some(Piece::Pawn(_)) && piece_move.end.row == farthest_row(
        grid,
        white_turn,
    )
}

/// Whether a move is accepted: it is among the legal moves, and it names a piece to promote
/// to, by one of the four letters, exactly when it takes a pawn to the last row.
pub open spec fn move_is_valid(
    grid: Seq<Seq<Option<Piece>>>,
    state: StateView,
    piece_move: PieceMoveView,
) -> bool {
    &&& state.valid_moves.contains_key(piece_move.start)
    &&& state.valid_moves[piece_move.start].contains(piece_move.end)
    &&& if is_promotion(grid, state.white_turn, piece_move) {
        piece_move.promotion matches Some(letter) && promotion_piece(letter, state.white_turn) is Some
    } else {
        piece_move.promotion is None
    }
}

/// Why a move cannot be carried out, in words; nothing where it can.
pub open spec fn refusal(grid: Seq<Seq<Option<Piece>>>, white_turn: bool, piece_move: PieceMoveView) -> Seq<char> {
    if !on_board(grid, piece_move.start) || !on_board(grid, piece_move.end) {
        "The move leaves the board."@
    } else if piece_on(grid, piece_move.start) is None {
        "No piece stands on the square."@
    } else if piece_move.promotion matches Some(letter) && promotion_piece(letter, white_turn) is None {
        "The promotion names no piece."@
    } else {
        Seq::empty()
    }
}

/// Whether a move can be carried out at all: both its squares are on the board, a piece
/// stands on the first, and the promotion it asks for, if any, names a piece.
pub open spec fn can_be_made(grid: Seq<Seq<Option<Piece>>>, white_turn: bool, piece_move: PieceMoveView) -> bool {
    &&& on_board(grid, piece_move.start)
    &&& on_board(grid, piece_move.end)
    &&& piece_on(grid, piece_move.start) is Some
    &&& piece_move.promotion matches Some(letter) ==> promotion_piece(letter, white_turn) is Some
}

/// The board after the rook has moved that goes with a castling move, where the move is one
/// and the board has the two squares of the rook.
pub open spec fn after_castling(grid: Seq<Seq<Option<Piece>>>, piece_move: PieceMoveView) -> Seq<Seq<Option<Piece>>> {
    match castle_rook_move(grid, piece_move) {
        Some(rook) => if on_board(grid, rook.start) && on_board(grid, rook.end) {
            with_move(grid, rook.start, rook.end)
        } else {
            grid
        },
        None => grid,
    }
}

/// The board `grid` after the pawn has gone that the move captures in passing on the board
/// `before`, where the move is such a capture and the board has the square of the pawn.
pub open spec fn after_en_passant(
    grid: Seq<Seq<Option<Piece>>>,
    before: Seq<Seq<Option<Piece>>>,
    piece_move: PieceMoveView,
) -> Seq<Seq<Option<Piece>>> {
    match en_passant_taken(before, piece_move) {
        Some(taken) => if on_board(grid, taken) {
            with_cell(grid, taken, None)
        } else {
            grid
        },
        None => grid,
    }
}

/// The board `grid` after the piece on the last square of the move has become the piece that
/// the move promotes to, where it asks for one.
pub open spec fn after_promotion(
    grid: Seq<Seq<Option<Piece>>>,
    white_turn: bool,
    piece_move: PieceMoveView,
) -> Seq<Seq<Option<Piece>>> {
    match piece_move.promotion {
        Some(letter) => with_cell(grid, piece_move.end, promotion_piece(letter, white_turn)),
        None => grid,
    }
}

/// The board after a move of the side `white_turn`: the rook of a castling move goes to its
/// square, the pawn captured in passing leaves, the piece goes from the first square of the
/// move to the last, and a promoted pawn is replaced.
pub open spec fn board_after(
    grid: Seq<Seq<Option<Piece>>>,
    white_turn: bool,
    piece_move: PieceMoveView,
) -> Seq<Seq<Option<Piece>>> {
    after_promotion(
        with_move(
            after_en_passant(after_castling(grid, piece_move), grid, piece_move),
            piece_move.start,
            piece_move.end,
        ),
        white_turn,
        piece_move,
    )
}

/// Whether every move of the map starts from a square of the board on which a piece stands,
/// and ends on another square of the board.
pub open spec fn moves_are_sound(grid: Seq<Seq<Option<Piece>>>, legal: Map<Position, Seq<Position>>) -> bool {
    forall|start: Position, end: Position|
        legal.contains_key(start) && #[trigger] legal[start].contains(end) ==> on_board(grid, start) && on_board(
            grid,
            end,
        ) && start != end && piece_on(grid, start) is Some
}

/// The board and the state that a move leaves, handed to whoever shows the game.
#[derive(Debug)]
pub struct GameStateResult {
    pub board: Vec<Vec<Option<Piece>>>,
    pub game_state: State,
}

/// A game of chess: the board, the state and the log of the moves.
pub struct Game {
    move_logger: MoveLogger,
    board: Board,
    state: State,
}

/// The mathematical content of a [`Game`].
pub struct GameView {
    pub board: Seq<Seq<Option<Piece>>>,
    pub state: StateView,
    pub log: Seq<Seq<LoggedMoveView>>,
}

impl View for Game {
    type V = GameView;

    closed spec fn view(&self) -> GameView {
        GameView { board: self.board@, state: self.state@, log: self.move_logger@ }
    }
}

/// The state that a game starts in: the turn and the rights to castle of the configuration,
/// no check, no legal moves yet and no move made.
pub open spec fn initial_state(config: GameConfig) -> StateView {
    StateView {
        white_turn: config.white_turn,
        game_state: GameState::Active,
        white_long_castle: config.white_long_castle,
        white_short_castle: config.white_short_castle,
        black_long_castle: config.black_long_castle,
        black_short_castle: config.black_short_castle,
        in_check: false,
        valid_moves: Map::empty(),
        last_move: None,
    }
}

/// The game after its first evaluation, made on behalf of the side that does not move first.
pub open spec fn initialised(game: GameView) -> GameView {
    GameView { state: evaluated(game.state, game.board, !game.state.white_turn), ..game }
}

/// The log after a move that has left the game with the given board and state: the move is
/// added with its notation, unless it has left its last square empty.
pub open spec fn logged(
    log: Seq<Seq<LoggedMoveView>>,
    board: Seq<Seq<Option<Piece>>>,
    legal_before: Map<Position, Seq<Position>>,
    state: StateView,
    piece_move: PieceMoveView,
) -> Seq<Seq<LoggedMoveView>> {
    match piece_on(board, piece_move.end) {
        Some(piece) => log_with(
            log,
            LoggedMoveView {
                piece_move,
                pgn_notation: notation(board, legal_before, piece, piece_move, state.game_state, state.in_check),
            },
        ),
        None => log,
    }
}

/// The game after a move has been made: the rights to castle are brought up to date, the
/// board is changed, the move becomes the last move, the board is evaluated for the other
/// side, the move is logged and the turn passes.
pub open spec fn performed(game: GameView, piece_move: PieceMoveView) -> GameView {
    let board = board_after(game.board, game.state.white_turn, piece_move);
    let moved = StateView { last_move: Some(piece_move), ..castling_after(game.state, game.board, piece_move) };
    let judged = evaluated(moved, board, game.state.white_turn);
    GameView {
        board,
        state: StateView { white_turn: !game.state.white_turn, ..judged },
        log: logged(game.log, board, game.state.valid_moves, judged, piece_move),
    }
}

/// The game after a move has been handed to it: a move that is accepted and can be made is
/// made, and any other move leaves the game as it was.
pub open spec fn after_move(game: GameView, piece_move: PieceMoveView) -> GameView {
    if move_is_valid(game.board, game.state, piece_move) && can_be_made(
        game.board,
        game.state.white_turn,
        piece_move,
    ) {
        performed(game, piece_move)
    } else {
        game
    }
}

impl Game {
    /// Whether the legal moves of the game are moves on its board. A new game is so, and
    /// every move and every evaluation leaves it so.
    pub open spec fn well_formed(&self) -> bool {
        moves_are_sound(self@.board, self@.state.valid_moves)
    }

    /// The board of a game is a grid that a board can hold.
    pub proof fn lemma_board_is_board(&self)
        ensures
            is_board(self@.board),
    {
        self.board.lemma_view_is_board();
    }

    /// A game on the configured board, in its initial state.
    pub fn new(game_config: GameConfig) -> (game: Game)
        requires
            config_fits(&game_config.initial_board),
        ensures
            game@.board == placed_grid(
                game_config.initial_board.pieces@,
                game_config.initial_board.pieces@.len(),
                game_config.initial_board.rows as nat,
                game_config.initial_board.columns as nat,
            ),
            game@.state == initial_state(game_config),
            game@.log == seq![Seq::<LoggedMoveView>::empty()],
            game.well_formed(),
    {
        let mut board = Board::new(&game_config.initial_board);
        let cells = board.get_current_board();
        Game {
            move_logger: MoveLogger::new(cells),
            board,
            state: State {
                white_turn: game_config.white_turn,
                game_state: GameState::Active,
                white_long_castle: game_config.white_long_castle,
                white_short_castle: game_config.white_short_castle,
                black_long_castle: game_config.black_long_castle,
                black_short_castle: game_config.black_short_castle,
                in_check: false,
                valid_moves: MoveMap::new(),
                last_move: None,
            },
        }
    }

    /// A copy of the state.
    pub fn get_state(&self) -> (state: State)
        ensures
            state@ == self@.state,
    {
        self.state.clone()
    }

    /// A copy of the cells of the board.
    pub fn get_current_board(&self) -> (cells: Vec<Vec<Option<Piece>>>)
        ensures
            grid_view(&cells) == self@.board,
    {
        crate::board::copy_grid(self.board.cells())
    }

    /// The log of the moves made so far.
    pub fn get_move_logger(&self) -> (logger: &MoveLogger)
        ensures
            logger@ == self@.log,
    {
        &self.move_logger
    }

    /// Evaluates the starting position, so that the side that moves first finds its legal
    /// moves, and returns the board and the state.
    pub fn initialise_game_state(&mut self) -> (result: Result<GameStateResult, &'static str>)
        ensures
            final(self)@ == initialised(old(self)@),
            final(self).well_formed(),
            result matches Ok(outcome) && grid_view(&outcome.board) == final(self)@.board && outcome.game_state@
                == final(self)@.state,
    {
        let current_board = self.board.get_current_board();
        let white_turn = !self.state.white_turn;
        self.update_game_state(white_turn, &current_board);
        Ok(GameStateResult { board: current_board, game_state: self.state.clone() })
    }

    /// Whether the move is accepted: it is among the legal moves of the side to move, and it
    /// names a piece to promote to exactly when it takes a pawn to the last row.
    pub fn validate_move(&self, piece_move: &PieceMove) -> (valid: bool)
        ensures
            valid == move_is_valid(self@.board, self@.state, piece_move@),
            valid && self.well_formed() ==> can_be_made(self@.board, self@.state.white_turn, piece_move@),
    {
        if !self.state.valid_moves.allows(&piece_move.start, &piece_move.end) {
            return false;
        }
        let board = self.board.cells();
        let ghost grid = grid_view(board);
        assert(grid.len() == board.len());
        let last_row = if self.state.white_turn {
            board.len() >= 1 && piece_move.end.row == board.len() - 1
        } else {
            piece_move.end.row == 0
        };
        let pawn = is_on_board(board, &piece_move.start) && match &board[piece_move.start.row][piece_move.start
            .column] {
            Some(Piece::Pawn(_)) => true,
            _ => false,
        };
        if last_row && pawn {
            match &piece_move.promotion {
                Some(letter) => get_promotion_piece(letter, self.state.white_turn).is_some(),
                None => false,
            }
        } else {
            piece_move.promotion.is_none()
        }
    }

    /// Brings the rights to castle up to date for a move of the side to move, given the board
    /// before the move.
    pub fn update_castling_options(&mut self, piece_move: &PieceMove, board: &Vec<Vec<Option<Piece>>>)
        ensures
            final(self)@ == (GameView {
                state: castling_after(old(self)@.state, grid_view(board), piece_move@),
                ..old(self)@
            }),
    {
        if !is_on_board(board, &piece_move.start) {
            return ;
        }
        match &board[piece_move.start.row][piece_move.start.column] {
            Some(Piece::Rook(_)) => {
                if self.state.white_turn {
                    if piece_move.start.column == 0 {
                        self.state.white_long_castle = false;
                    } else if piece_move.start.column == 7 {
                        self.state.white_short_castle = false;
                    }
                } else {
                    if piece_move.start.column == 0 {
                        self.state.black_long_castle = false;
                    } else if piece_move.start.column == 7 {
                        self.state.black_short_castle = false;
                    }
                }
            },
            Some(Piece::King(_)) => {
                if self.state.white_turn {
                    self.state.white_long_castle = false;
                    self.state.white_short_castle = false;
                } else {
                    self.state.black_long_castle = false;
                    self.state.black_short_castle = false;
                }
            },
            _ => {},
        }
    }

    /// Evaluates `board` on behalf of the side `white_turn`, which has just moved, and sets
    /// the check, the legal moves and the state of play for the other side.
    pub fn update_game_state(&mut self, white_turn: bool, board: &Vec<Vec<Option<Piece>>>)
        ensures
            final(self)@ == (GameView {
                state: evaluated(old(self)@.state, grid_view(board), white_turn),
                ..old(self)@
            }),
            grid_view(board) == old(self)@.board ==> final(self).well_formed(),
    {
        let long_castle = self.state.check_long_castle(white_turn);
        let short_castle = self.state.check_short_castle(white_turn);
        let evaluation = evaluate(white_turn, board, long_castle, short_castle, &self.state.last_move);
        proof {
            let grid = grid_view(board);
            let last = move_view(self.state.last_move);
            lemma_grid_view_is_board(board);
            assert forall|start: Position, end: Position|
                evaluation@.valid_moves.contains_key(start) && #[trigger] evaluation@.valid_moves[start].contains(
                    end,
                ) implies on_board(grid, start) && on_board(grid, end) && start != end && piece_on(
                grid,
                start,
            ) is Some by {
                lemma_legal_moves_are_sound(grid, white_turn, long_castle, short_castle, last, start, end);
            }
        }
        self.state.in_check = evaluation.in_check;
        self.state.game_state = evaluation.game_state;
        self.state.valid_moves = evaluation.valid_moves;
    }

    /// Whether a move can be carried out, and the piece it promotes to.
    fn check_move(&self, piece_move: &PieceMove) -> (result: Result<Option<Piece>, &'static str>)
        ensures
            match result {
                Ok(promoted) => {
                    &&& can_be_made(self@.board, self@.state.white_turn, piece_move@)
                    &&& promoted == match piece_move@.promotion {
                        Some(letter) => promotion_piece(letter, self@.state.white_turn),
                        None => None,
                    }
                },
                Err(reason) => {
                    &&& !can_be_made(self@.board, self@.state.white_turn, piece_move@)
                    &&& reason@ == refusal(self@.board, self@.state.white_turn, piece_move@)
                },
            },
    {
        let board = self.board.cells();
        if !is_on_board(board, &piece_move.start) || !is_on_board(board, &piece_move.end) {
            return Err("The move leaves the board.");
        }
        if board[piece_move.start.row][piece_move.start.column].is_none() {
            return Err("No piece stands on the square.");
        }
        match &piece_move.promotion {
            Some(letter) => {
                let piece = get_promotion_piece(letter, self.state.white_turn);
                if piece.is_none() {
                    return Err("The promotion names no piece.");
                }
                Ok(piece)
            },
            None => Ok(None),
        }
    }

    /// Changes the board as a move of the side to move asks, and returns a copy of the cells.
    fn change_board(&mut self, piece_move: &PieceMove, promoted: Option<Piece>) -> (cells: Vec<Vec<Option<Piece>>>)
        requires
            can_be_made(old(self)@.board, old(self)@.state.white_turn, piece_move@),
            promoted == match piece_move@.promotion {
                Some(letter) => promotion_piece(letter, old(self)@.state.white_turn),
                None => None,
            },
        ensures
            final(self)@ == (GameView {
                board: board_after(old(self)@.board, old(self)@.state.white_turn, piece_move@),
                ..old(self)@
            }),
            grid_view(&cells) == final(self)@.board,
    {
        let before = self.board.get_current_board();
        let ghost grid = grid_view(&before);
        let castle_move = get_castle_move(piece_move, &before);
        let en_passant_move = get_en_passant_move(piece_move, &before);

        if let Some(rook_move) = castle_move {
            if is_on_board(&before, &rook_move.start) && is_on_board(&before, &rook_move.end) {
                self.board.move_piece(&rook_move.start, &rook_move.end);
            }
        }
        assert(self.board@ == after_castling(grid, piece_move@));
        if let Some(taken) = en_passant_move {
            if is_on_board(self.board.cells(), &taken) {
                self.board.clear_position(&taken);
            }
        }
        assert(self.board@ == after_en_passant(after_castling(grid, piece_move@), grid, piece_move@));
        let mut current_board = self.board.move_piece(&piece_move.start, &piece_move.end);
        if piece_move.promotion.is_some() {
            current_board = self.board.set_position(&piece_move.end, promoted);
        }
        current_board
    }

    /// The board and the state as they stand.
    fn snapshot(&self) -> (outcome: GameStateResult)
        ensures
            grid_view(&outcome.board) == self@.board,
            outcome.game_state@ == self@.state,
    {
        GameStateResult { board: crate::board::copy_grid(self.board.cells()), game_state: self.state.clone() }
    }

    /// Makes a move of the side to move if it is legal, and returns the board and the state
    /// as they then stand. A move that is not among the legal moves, or that names a promotion
    /// where none is due or none where one is, is rejected: nothing changes, and the board and
    /// the state are returned as they were. A move that cannot be made at all, because it
    /// leaves the board, starts from an empty square or names no piece to promote to, is
    /// refused with the reason, and changes nothing either.
    ///
    /// In a game whose legal moves are moves on its board, as they are after every
    /// evaluation, a move that is made leaves the square it starts from empty, and the legal
    /// moves that follow hold no move from that square.
    pub fn perform_move(&mut self, piece_move: PieceMove) -> (result: Result<GameStateResult, &'static str>)
        ensures
            final(self)@ == after_move(old(self)@, piece_move@),
            !move_is_valid(old(self)@.board, old(self)@.state, piece_move@) ==> final(self)@ == old(self)@,
            old(self).well_formed() ==> final(self).well_formed(),
            result is Ok && move_is_valid(old(self)@.board, old(self)@.state, piece_move@)
                ==> final(self).well_formed(),
            match result {
                Ok(outcome) => {
                    &&& can_be_made(old(self)@.board, old(self)@.state.white_turn, piece_move@)
                    &&& grid_view(&outcome.board) == final(self)@.board
                    &&& outcome.game_state@ == final(self)@.state
                },
                Err(reason) => {
                    &&& !can_be_made(old(self)@.board, old(self)@.state.white_turn, piece_move@)
                    &&& reason@ == refusal(old(self)@.board, old(self)@.state.white_turn, piece_move@)
                },
            },
            old(self).well_formed() && move_is_valid(old(self)@.board, old(self)@.state, piece_move@) ==> {
                &&& result is Ok
                &&& final(self)@ == performed(old(self)@, piece_move@)
                &&& piece_on(final(self)@.board, piece_move.start) is None
                &&& !final(self)@.state.valid_moves.contains_key(piece_move.start)
            },
    {
        proof {
            self.board.lemma_view_is_board();
            if old(self).well_formed() && move_is_valid(old(self)@.board, old(self)@.state, piece_move@) {
                lemma_no_move_from_vacated_square(old(self)@, piece_move@);
            }
        }
        let promoted = match self.check_move(&piece_move) {
            Ok(promoted) => promoted,
            Err(reason) => {
                return Err(reason);
            },
        };
        if !self.validate_move(&piece_move) {
            return Ok(self.snapshot());
        }
        let white_turn = self.state.white_turn;
        let legal_before = self.state.valid_moves.copy();
        let before = self.board.get_current_board();

        self.update_castling_options(&piece_move, &before);
        let current_board = self.change_board(&piece_move, promoted);
        self.state.last_move = Some(piece_move.clone());
        self.update_game_state(white_turn, &current_board);

        if is_on_board(&current_board, &piece_move.end) && current_board[piece_move.end.row][piece_move.end
            .column].is_some() {
            self.move_logger.add_move(piece_move, &current_board, &self.state, &legal_before);
        }
        self.state.white_turn = !white_turn;

        let outcome = GameStateResult { board: current_board, game_state: self.state.clone() };
        Ok(outcome)
    }
}

/// Replacing a cell of a board leaves a grid that a board can hold, with the same squares.
pub proof fn lemma_with_cell_keeps_shape(grid: Seq<Seq<Option<Piece>>>, position: Position, cell: Option<Piece>)
    requires
        is_board(grid),
        on_board(grid, position),
    ensures
        is_board(with_cell(grid, position, cell)),
        forall|other: Position| on_board(with_cell(grid, position, cell), other) == on_board(grid, other),
        forall|other: Position|
            other != position ==> piece_on(with_cell(grid, position, cell), other) == piece_on(grid, other),
        piece_on(with_cell(grid, position, cell), position) == cell,
{
    let after = with_cell(grid, position, cell);
    assert forall|row: int| 0 <= row < after.len() implies (#[trigger] after[row]).len() <= usize::MAX by {
        assert(grid[row].len() <= usize::MAX);
    }
}

/// The board before the piece of a move leaves its square has the squares of the board the
/// move is made on.
pub proof fn lemma_side_effects_keep_shape(grid: Seq<Seq<Option<Piece>>>, piece_move: PieceMoveView)
    requires
        is_board(grid),
    ensures
        is_board(after_en_passant(after_castling(grid, piece_move), grid, piece_move)),
        forall|other: Position|
            on_board(after_en_passant(after_castling(grid, piece_move), grid, piece_move), other) == on_board(
                grid,
                other,
            ),
{
    let castled = after_castling(grid, piece_move);
    match castle_rook_move(grid, piece_move) {
        Some(rook) => {
            if on_board(grid, rook.start) && on_board(grid, rook.end) {
                lemma_with_cell_keeps_shape(grid, rook.start, None);
                lemma_with_cell_keeps_shape(with_cell(grid, rook.start, None), rook.end, piece_on(grid, rook.start));
            }
        },
        None => {},
    }
    match en_passant_taken(grid, piece_move) {
        Some(taken) => {
            if on_board(castled, taken) {
                lemma_with_cell_keeps_shape(castled, taken, None);
            }
        },
        None => {},
    }
}

/// A move that can be made leaves the square it starts from empty, unless it ends where it
/// starts, and leaves a grid that a board can hold.
pub proof fn lemma_move_vacates_its_square(grid: Seq<Seq<Option<Piece>>>, white_turn: bool, piece_move: PieceMoveView)
    requires
        is_board(grid),
        can_be_made(grid, white_turn, piece_move),
        piece_move.start != piece_move.end,
    ensures
        is_board(board_after(grid, white_turn, piece_move)),
        on_board(board_after(grid, white_turn, piece_move), piece_move.start),
        piece_on(board_after(grid, white_turn, piece_move), piece_move.start) is None,
{
    lemma_side_effects_keep_shape(grid, piece_move);
    let prepared = after_en_passant(after_castling(grid, piece_move), grid, piece_move);
    lemma_with_cell_keeps_shape(prepared, piece_move.start, None);
    let lifted = with_cell(prepared, piece_move.start, None);
    lemma_with_cell_keeps_shape(lifted, piece_move.end, piece_on(prepared, piece_move.start));
    let moved = with_move(prepared, piece_move.start, piece_move.end);
    match piece_move.promotion {
        Some(letter) => {
            lemma_with_cell_keeps_shape(moved, piece_move.end, promotion_piece(letter, white_turn));
        },
        None => {},
    }
}

/// A move that is accepted in a game whose legal moves are moves on its board can be made,
/// and does not end where it starts.
pub proof fn lemma_accepted_move_can_be_made(game: GameView, piece_move: PieceMoveView)
    requires
        moves_are_sound(game.board, game.state.valid_moves),
        move_is_valid(game.board, game.state, piece_move),
    ensures
        can_be_made(game.board, game.state.white_turn, piece_move),
        piece_move.start != piece_move.end,
{
    assert(game.state.valid_moves[piece_move.start].contains(piece_move.end));
}

/// After a move has been made, the legal moves hold no move from the square that the piece
/// has left, which is empty: their map has no entry for it. This holds of every move that is
/// accepted in a game whose legal moves are moves on its board, as they are after every
/// evaluation. Where the move is no castling move, no capture in passing and no promotion,
/// the piece that stood on the first square of the move stands on the last.
pub proof fn lemma_no_move_from_vacated_square(game: GameView, piece_move: PieceMoveView)
    requires
        is_board(game.board),
        moves_are_sound(game.board, game.state.valid_moves),
        move_is_valid(game.board, game.state, piece_move),
    ensures
        after_move(game, piece_move) == performed(game, piece_move),
        !performed(game, piece_move).state.valid_moves.contains_key(piece_move.start),
        piece_on(performed(game, piece_move).board, piece_move.start) is None,
        castle_rook_move(game.board, piece_move) is None && en_passant_taken(game.board, piece_move) is None
            && piece_move.promotion is None ==> piece_on(performed(game, piece_move).board, piece_move.end)
            == piece_on(game.board, piece_move.start),
{
    lemma_accepted_move_can_be_made(game, piece_move);
    let white_turn = game.state.white_turn;
    let board = board_after(game.board, white_turn, piece_move);
    lemma_move_vacates_its_square(game.board, white_turn, piece_move);
    let moved = StateView { last_move: Some(piece_move), ..castling_after(game.state, game.board, piece_move) };
    if evaluated(moved, board, white_turn).valid_moves.contains_key(piece_move.start) {
        lemma_legal_origin_is_opposing_piece(
            board,
            white_turn,
            long_castle_left(moved, white_turn),
            short_castle_left(moved, white_turn),
            moved.last_move,
            piece_move.start,
        );
    }
    if castle_rook_move(game.board, piece_move) is None && en_passant_taken(game.board, piece_move) is None
        && piece_move.promotion is None {
        lemma_with_cell_keeps_shape(game.board, piece_move.start, None);
        lemma_with_cell_keeps_shape(
            with_cell(game.board, piece_move.start, None),
            piece_move.end,
            piece_on(game.board, piece_move.start),
        );
    }
}

/// An evaluation reads the board, the rights to castle and the last move, and nothing else of
/// the state: made twice, it leaves what it leaves when made once, the legal moves above all.
pub proof fn lemma_evaluation_is_idempotent(state: StateView, grid: Seq<Seq<Option<Piece>>>, white_turn: bool)
    ensures
        evaluated(evaluated(state, grid, white_turn), grid, white_turn) == evaluated(state, grid, white_turn),
        evaluated(evaluated(state, grid, white_turn), grid, white_turn).valid_moves == evaluated(
            state,
            grid,
            white_turn,
        ).valid_moves,
{
}

/// A pawn beside an opposing pawn that has just advanced two rows may capture it in passing:
/// the square behind that pawn is among its moves, and once the move is made onto the empty
/// square, the pawn stands there and the square of the captured pawn is empty.
pub proof fn lemma_en_passant_captures(
    grid: Seq<Seq<Option<Piece>>>,
    origin: Position,
    last_move: PieceMoveView,
    target: Position,
)
    requires
        is_board(grid),
        on_board(grid, origin),
        piece_on(grid, origin) matches Some(Piece::Pawn(_)),
        en_passant_target(grid, origin, piece_on(grid, origin).unwrap().is_white(), Some(last_move)) == Some(target),
        piece_on(grid, target) is None,
    ensures
        pawn_data(grid, origin, Some(last_move)).valid_moves.contains(target),
        piece_on(
            board_after(
                grid,
                piece_on(grid, origin).unwrap().is_white(),
                PieceMoveView { start: origin, end: target, promotion: None },
            ),
            last_move.end,
        ) is None,
        piece_on(
            board_after(
                grid,
                piece_on(grid, origin).unwrap().is_white(),
                PieceMoveView { start: origin, end: target, promotion: None },
            ),
            target,
        ) == piece_on(grid, origin),
{
    let white = piece_on(grid, origin).unwrap().is_white();
    let data = pawn_data(grid, origin, Some(last_move));
    assert(data.valid_moves[data.valid_moves.len() - 1] == target);
    let piece_move = PieceMoveView { start: origin, end: target, promotion: None };
    assert(grid[origin.row + crate::pieces::pawn::forward(white)].len() <= usize::MAX);
    assert(target.column == last_move.end.column);
    assert(en_passant_taken(grid, piece_move) == Some(last_move.end));
    assert(castle_rook_move(grid, piece_move) is None);
    lemma_with_cell_keeps_shape(grid, last_move.end, None);
    let cleared = with_cell(grid, last_move.end, None);
    lemma_with_cell_keeps_shape(cleared, origin, None);
    lemma_with_cell_keeps_shape(with_cell(cleared, origin, None), target, piece_on(cleared, origin));
}

} // verus!
