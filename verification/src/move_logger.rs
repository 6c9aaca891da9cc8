use vstd::prelude::*;
use vstd::string::*;
use crate::board::{grid_view, on_board, piece_on};
use crate::game::{GameState, State};
use crate::move_map::MoveMap;
use crate::piece_move::{PieceMove, PieceMoveView};
use crate::pieces::piece::Piece;
use crate::position::{square, Position};

verus! {

/// A move of the game with its notation.
#[derive(Debug)]
pub struct LoggedMove {
    pub piece_move: PieceMove,
    pub pgn_notation: String,
}

/// The mathematical content of a [`LoggedMove`].
pub struct LoggedMoveView {
    pub piece_move: PieceMoveView,
    pub pgn_notation: Seq<char>,
}

impl View for LoggedMove {
    type V = LoggedMoveView;

    open spec fn view(&self) -> LoggedMoveView {
        LoggedMoveView { piece_move: self.piece_move@, pgn_notation: self.pgn_notation@ }
    }
}

/// The moves of a game in order, in pairs: white's move, then black's.
pub struct MoveLogger {
    /// The board that the game started from.
    pub initial_board: Vec<Vec<Option<Piece>>>,
    /// The moves, pair by pair.
    pub moves: Vec<Vec<LoggedMove>>,
}

/// The content of each logged move of each pair.
pub open spec fn log_views(moves: Seq<Vec<LoggedMove>>) -> Seq<Seq<LoggedMoveView>> {
    Seq::new(moves.len(), |i: int| Seq::new(moves[i]@.len(), |j: int| moves[i]@[j]@))
}

impl View for MoveLogger {
    type V = Seq<Seq<LoggedMoveView>>;

    open spec fn view(&self) -> Seq<Seq<LoggedMoveView>> {
        log_views(self.moves@)
    }
}

/// The log after one more move: the move joins the last pair, or starts a new one where the
/// last pair is complete or there is none.
pub open spec fn log_with(log: Seq<Seq<LoggedMoveView>>, entry: LoggedMoveView) -> Seq<Seq<LoggedMoveView>> {
    if log.len() == 0 || log.last().len() == 2 {
        log.push(seq![entry])
    } else {
        log.update(log.len() - 1, log.last().push(entry))
    }
}

/// The letter of a piece in notation; a pawn has none.
pub open spec fn piece_letter(piece: Piece) -> Seq<char> {
    match piece {
        Piece::Bishop(_) => seq!['B'],
        Piece::King(_) => seq!['K'],
        Piece::Knight(_) => seq!['N'],
        Piece::Pawn(_) => Seq::empty(),
        Piece::Queen(_) => seq!['Q'],
        Piece::Rook(_) => seq!['R'],
    }
}

/// The letter of a file, `a` to `h`; a blank for a column beyond the eighth.
pub open spec fn file_letter(column: int) -> char {
    if column == 0 {
        'a'
    } else if column == 1 {
        'b'
    } else if column == 2 {
        'c'
    } else if column == 3 {
        'd'
    } else if column == 4 {
        'e'
    } else if column == 5 {
        'f'
    } else if column == 6 {
        'g'
    } else if column == 7 {
        'h'
    } else {
        ' '
    }
}

/// The digit of a rank, `1` to `8`; a blank for a row beyond the eighth.
pub open spec fn rank_digit(row: int) -> char {
    if row == 0 {
        '1'
    } else if row == 1 {
        '2'
    } else if row == 2 {
        '3'
    } else if row == 3 {
        '4'
    } else if row == 4 {
        '5'
    } else if row == 5 {
        '6'
    } else if row == 6 {
        '7'
    } else if row == 7 {
        '8'
    } else {
        ' '
    }
}

/// The notation of a castling move: `O-O` where the king has gone two files to the right,
/// `O-O-O` where he has gone two files to the left, and nothing for any other move.
pub open spec fn castling_notation(piece: Piece, piece_move: PieceMoveView) -> Seq<char> {
    if piece.is_king() && piece_move.end.column == piece_move.start.column + 2 {
        seq!['O', '-', 'O']
    } else if piece.is_king() && piece_move.start.column == piece_move.end.column + 2 {
        seq!['O', '-', 'O', '-', 'O']
    } else {
        Seq::empty()
    }
}

/// Whether the piece on the given square could have made the move as well: it is of the kind
/// and colour of `piece`, and `target` was among its legal moves.
pub open spec fn is_rival(
    grid: Seq<Seq<Option<Piece>>>,
    legal: Map<Position, Seq<Position>>,
    piece: Piece,
    target: Position,
    row: int,
    column: int,
) -> bool {
    &&& grid[row][column] == Some(piece)
    &&& legal.contains_key(square(row, column))
    &&& legal[square(row, column)].contains(target)
}

/// The column of the first rival in a row at or after the column `from`, if there is one.
pub open spec fn rival_in_row(
    grid: Seq<Seq<Option<Piece>>>,
    legal: Map<Position, Seq<Position>>,
    piece: Piece,
    target: Position,
    row: int,
    from: int,
) -> Option<int>
    decreases grid[row].len() - from,
{
    if from < 0 || from >= grid[row].len() {
        None
    } else if is_rival(grid, legal, piece, target, row, from) {
        Some(from)
    } else {
        rival_in_row(grid, legal, piece, target, row, from + 1)
    }
}

/// The column of the first rival on the board in the rows at or after `from`, row by row from
/// the first and each row from the left, if there is one.
pub open spec fn first_rival(
    grid: Seq<Seq<Option<Piece>>>,
    legal: Map<Position, Seq<Position>>,
    piece: Piece,
    target: Position,
    from: int,
) -> Option<int>
    decreases grid.len() - from,
{
    if from < 0 || from >= grid.len() {
        None
    } else {
        match rival_in_row(grid, legal, piece, target, from, 0) {
            Some(column) => Some(column),
            None => first_rival(grid, legal, piece, target, from + 1),
        }
    }
}

/// How a move is told apart from that of a rival: by its file where the first rival stands on
/// another file, by its rank where it stands on the same. The first of the pair asks for the
/// file, the second for the rank. A king has no rival.
pub open spec fn ambiguity(
    grid: Seq<Seq<Option<Piece>>>,
    legal: Map<Position, Seq<Position>>,
    piece: Piece,
    piece_move: PieceMoveView,
) -> (bool, bool) {
    if piece.is_king() {
        (false, false)
    } else {
        match first_rival(grid, legal, piece, piece_move.end, 0) {
            Some(column) => if piece_move.start.column == column {
                (false, true)
            } else {
                (true, false)
            },
            None => (false, false),
        }
    }
}

/// The mark that tells a move apart from that of a rival: the file of its start, the rank of
/// its start, or nothing.
pub open spec fn ambiguity_mark(marks: (bool, bool), piece_move: PieceMoveView) -> Seq<char> {
    if marks.0 {
        seq![file_letter(piece_move.start.column as int)]
    } else if marks.1 {
        seq![rank_digit(piece_move.start.row as int)]
    } else {
        Seq::empty()
    }
}

/// The mark of a promotion: `=` and the letter of the new piece.
pub open spec fn promotion_mark(promotion: Option<Seq<char>>) -> Seq<char> {
    match promotion {
        Some(letter) => seq!['='] + letter,
        None => Seq::empty(),
    }
}

/// The mark of what a move does to the other side: `#` for checkmate, `+` for check.
pub open spec fn check_mark(game_state: GameState, in_check: bool) -> Seq<char> {
    if game_state == GameState::BlackWin || game_state == GameState::WhiteWin {
        seq!['#']
    } else if in_check {
        seq!['+']
    } else {
        Seq::empty()
    }
}

/// The notation of a move that has been made, for the piece that now stands on its last
/// square: the castling notation for a castling move; else the letter of the piece unless it
/// was promoted, the mark that tells it from a rival, the square it went to and the mark of
/// the promotion; then the mark of check or checkmate.
pub open spec fn notation(
    grid: Seq<Seq<Option<Piece>>>,
    legal: Map<Position, Seq<Position>>,
    piece: Piece,
    piece_move: PieceMoveView,
    game_state: GameState,
    in_check: bool,
) -> Seq<char> {
    let castling = castling_notation(piece, piece_move);
    let core = if castling.len() > 0 {
        castling
    } else {
        (if piece_move.promotion is None {
            piece_letter(piece)
        } else {
            Seq::empty()
        }) + ambiguity_mark(ambiguity(grid, legal, piece, piece_move), piece_move) + seq![
            file_letter(piece_move.end.column as int),
            rank_digit(piece_move.end.row as int),
        ] + promotion_mark(piece_move.promotion)
    };
    core + check_mark(game_state, in_check)
}

impl MoveLogger {
    /// A log without moves for a game that starts from `initial_board`.
    pub fn new(initial_board: Vec<Vec<Option<Piece>>>) -> (logger: MoveLogger)
        ensures
            logger@ == seq![Seq::<LoggedMoveView>::empty()],
            logger.initial_board == initial_board,
    {
        let mut moves: Vec<Vec<LoggedMove>> = Vec::new();
        moves.push(Vec::new());
        let logger = MoveLogger { initial_board, moves };
        assert(logger@ =~~= seq![Seq::<LoggedMoveView>::empty()]);
        logger
    }

    /// Adds a move to the log, with its notation. The move has been made: `board` is the board
    /// after it and `game_state` the state after it, while `legal_before` holds the legal moves
    /// from which it was chosen.
    pub fn add_move(
        &mut self,
        piece_move: PieceMove,
        board: &Vec<Vec<Option<Piece>>>,
        game_state: &State,
        legal_before: &MoveMap,
    )
        requires
            on_board(grid_view(board), piece_move.end),
            piece_on(grid_view(board), piece_move.end) is Some,
        ensures
            final(self)@ == log_with(
                old(self)@,
                (LoggedMoveView {
                    piece_move: piece_move@,
                    pgn_notation: notation(
                        grid_view(board),
                        legal_before@,
                        piece_on(grid_view(board), piece_move.end).unwrap(),
                        piece_move@,
                        game_state.game_state,
                        game_state.in_check,
                    ),
                }),
            ),
            final(self).initial_board == old(self).initial_board,
    {
        let pgn_notation = calculate_pgn(&piece_move, board, game_state, legal_before);
        let entry = LoggedMove { pgn_notation, piece_move };
        let ghost added = entry@;
        let count = self.moves.len();
        if count == 0 || self.moves[count - 1].len() == 2 {
            let mut pair: Vec<LoggedMove> = Vec::new();
            pair.push(entry);
            self.moves.push(pair);
            assert(self@ =~~= log_with(old(self)@, added));
        } else {
            self.moves[count - 1].push(entry);
            assert(self@ =~~= log_with(old(self)@, added));
        }
    }
}

/// Works out the notation of a move that has been made, given the board and the state after
/// it and the legal moves from which it was chosen.
pub fn calculate_pgn(
    piece_move: &PieceMove,
    board: &Vec<Vec<Option<Piece>>>,
    game_state: &State,
    legal_before: &MoveMap,
) -> (pgn: String)
    requires
        on_board(grid_view(board), piece_move.end),
        piece_on(grid_view(board), piece_move.end) is Some,
    ensures
        pgn@ == notation(
            grid_view(board),
            legal_before@,
            piece_on(grid_view(board), piece_move.end).unwrap(),
            piece_move@,
            game_state.game_state,
            game_state.in_check,
        ),
{
    let piece = match &board[piece_move.end.row][piece_move.end.column] {
        Some(piece) => *piece,
        None => Piece::Pawn(true),
    };
    let ghost grid = grid_view(board);

    let mut pgn = get_castling_notation(&piece, piece_move);
    if pgn.as_str().unicode_len() == 0 {
        if piece_move.promotion.is_none() {
            pgn.append(get_piece_abbreviation(&piece));
        }
        let marks = check_ambiguity(&piece, piece_move, board, legal_before);
        if marks.0 {
            pgn.append(get_file_mapping(piece_move.start.column));
        } else if marks.1 {
            pgn.append(get_rank_mapping(piece_move.start.row));
        }
        pgn.append(get_file_mapping(piece_move.end.column));
        pgn.append(get_rank_mapping(piece_move.end.row));
        if let Some(letter) = &piece_move.promotion {
            proof {
                reveal_strlit("=");
            }
            pgn.append("=");
            pgn.append(letter.as_str());
            assert("="@ + letter@ =~= promotion_mark(piece_move@.promotion));
        }
    }
    match game_state.game_state {
        GameState::BlackWin | GameState::WhiteWin => {
            proof {
                reveal_strlit("#");
            }
            pgn.append("#");
        },
        _ => {
            if game_state.in_check {
                proof {
                    reveal_strlit("+");
                }
                pgn.append("+");
            }
        },
    }
    assert(pgn@ =~= notation(grid, legal_before@, piece, piece_move@, game_state.game_state, game_state.in_check));
    pgn
}

/// The castling notation of a move of `piece`, or nothing where the move is no castling move.
pub fn get_castling_notation(piece: &Piece, piece_move: &PieceMove) -> (text: String)
    ensures
        text@ == castling_notation(*piece, piece_move@),
{
    proof {
        reveal_strlit("O-O");
        reveal_strlit("O-O-O");
        reveal_strlit("");
    }
    let text = match piece {
        Piece::King(_) => {
            let column = piece_move.start.column;
            let target_column = piece_move.end.column;
            if target_column > column && target_column - column == 2 {
                String::from_str("O-O")
            } else if column > target_column && column - target_column == 2 {
                String::from_str("O-O-O")
            } else {
                String::from_str("")
            }
        },
        _ => String::from_str(""),
    };
    assert(text@ =~= castling_notation(*piece, piece_move@));
    text
}

/// Looks for a piece of the kind and colour of `piece` that could have made the move as well,
/// and says how the notation tells the two apart: the first of the pair asks for the file,
/// the second for the rank.
pub fn check_ambiguity(
    piece: &Piece,
    piece_move: &PieceMove,
    board: &Vec<Vec<Option<Piece>>>,
    valid_moves: &MoveMap,
) -> (marks: (bool, bool))
    ensures
        marks == ambiguity(grid_view(board), valid_moves@, *piece, piece_move@),
{
    if piece.is_king() {
        return (false, false);
    }
    let ghost grid = grid_view(board);
    let ghost legal = valid_moves@;
    let ghost target = piece_move.end;
    assert(grid.len() == board.len());
    let mut i: usize = 0;
    while i < board.len()
        invariant
            i <= board.len(),
            grid == grid_view(board),
            legal == valid_moves@,
            target == piece_move.end,
            !piece.is_king(),
            first_rival(grid, legal, *piece, target, 0) == first_rival(grid, legal, *piece, target, i as int),
        decreases board.len() - i,
    {
        assert(grid[i as int] == board@[i as int]@);
        let mut j: usize = 0;
        while j < board[i].len()
            invariant
                i < board.len(),
                j <= board[i as int].len(),
                grid == grid_view(board),
                grid[i as int] == board@[i as int]@,
                legal == valid_moves@,
                target == piece_move.end,
                !piece.is_king(),
                first_rival(grid, legal, *piece, target, 0) == first_rival(grid, legal, *piece, target, i as int),
                rival_in_row(grid, legal, *piece, target, i as int, 0) == rival_in_row(
                    grid,
                    legal,
                    *piece,
                    target,
                    i as int,
                    j as int,
                ),
            decreases board[i as int].len() - j,
        {
            let same = match &board[i][j] {
                Some(other) => *other == *piece,
                None => false,
            };
            let checking_pos = Position { row: i, column: j };
            assert(checking_pos == square(i as int, j as int));
            if same && valid_moves.allows(&checking_pos, &piece_move.end) {
                assert(is_rival(grid, legal, *piece, target, i as int, j as int));
                assert(rival_in_row(grid, legal, *piece, target, i as int, j as int) == Some(j as int));
                assert(first_rival(grid, legal, *piece, target, i as int) == Some(j as int));
                if piece_move.start.column == j {
                    return (false, true);
                } else {
                    return (true, false);
                }
            }
            assert(!is_rival(grid, legal, *piece, target, i as int, j as int));
            j += 1;
        }
        i += 1;
    }
    (false, false)
}

/// The letter of a piece in notation; a pawn has none.
pub fn get_piece_abbreviation(piece: &Piece) -> (text: &'static str)
    ensures
        text@ == piece_letter(*piece),
{
    proof {
        reveal_strlit("B");
        reveal_strlit("K");
        reveal_strlit("N");
        reveal_strlit("");
        reveal_strlit("Q");
        reveal_strlit("R");
    }
    let text = match piece {
        Piece::Bishop(_) => "B",
        Piece::King(_) => "K",
        Piece::Knight(_) => "N",
        Piece::Pawn(_) => "",
        Piece::Queen(_) => "Q",
        Piece::Rook(_) => "R",
    };
    assert(text@ =~= piece_letter(*piece));
    text
}

/// The letter of the file with the given column.
pub fn get_file_mapping(column: usize) -> (text: &'static str)
    ensures
        text@ == seq![file_letter(column as int)],
{
    proof {
        reveal_strlit("a");
        reveal_strlit("b");
        reveal_strlit("c");
        reveal_strlit("d");
        reveal_strlit("e");
        reveal_strlit("f");
        reveal_strlit("g");
        reveal_strlit("h");
        reveal_strlit(" ");
    }
    let text = match column {
        0 => "a",
        1 => "b",
        2 => "c",
        3 => "d",
        4 => "e",
        5 => "f",
        6 => "g",
        7 => "h",
        _ => " ",
    };
    assert(text@ =~= seq![file_letter(column as int)]);
    text
}

/// The digit of the rank with the given row: the row counted from one.
pub fn get_rank_mapping(row: usize) -> (text: &'static str)
    ensures
        text@ == seq![rank_digit(row as int)],
{
    proof {
        reveal_strlit("1");
        reveal_strlit("2");
        reveal_strlit("3");
        reveal_strlit("4");
        reveal_strlit("5");
        reveal_strlit("6");
        reveal_strlit("7");
        reveal_strlit("8");
        reveal_strlit(" ");
    }
    let text = match row {
        0 => "1",
        1 => "2",
        2 => "3",
        3 => "4",
        4 => "5",
        5 => "6",
        6 => "7",
        7 => "8",
        _ => " ",
    };
    assert(text@ =~= seq![rank_digit(row as int)]);
    text
}

} // verus!
