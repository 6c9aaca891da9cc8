use vstd::prelude::*;
use crate::board::is_board;
use crate::board::{empty_at, grid_view, on_board, piece_at, piece_on};
use crate::move_data::{MoveData, MoveDataView};
use crate::piece_move::{move_view, PieceMove, PieceMoveView};
use crate::pieces::piece::Piece;
use crate::pieces::piece_util::{
    get_hop_move_data, hop_data, is_friend, lemma_hop_moves_avoid_friends, lemma_hop_moves_on_board,
    white_on,
};
use crate::position::{contains_position, square, Position};

verus! {

/// The eight steps of a king, as his own side sees them: forward, right, backward, left, then
/// the four diagonals.
pub open spec fn king_offsets(white: bool) -> Seq<(i8, i8)> {
    if white {
        seq![(1i8, 0i8), (0i8, 1i8), (-1i8, 0i8), (0i8, -1i8), (1i8, 1i8), (-1i8, 1i8), (-1i8, -1i8), (1i8, -1i8)]
    } else {
        seq![(-1i8, 0i8), (0i8, 1i8), (1i8, 0i8), (0i8, -1i8), (-1i8, 1i8), (1i8, 1i8), (1i8, -1i8), (-1i8, -1i8)]
    }
}

/// The move data of the piece on `origin` when it moves as a king does.
pub open spec fn king_data(grid: Seq<Seq<Option<Piece>>>, origin: Position) -> MoveDataView {
    hop_data(grid, origin, white_on(grid, origin), king_offsets(white_on(grid, origin)))
}

/// The move data of a king on `origin`: the neighbouring squares he can move to and attacks,
/// the friendly pieces he guards, and an empty checking path where the opposing king stands
/// next to him. Whether a square is safe for him is not considered here.
pub fn get_king_move_data(origin: &Position, board: &Vec<Vec<Option<Piece>>>) -> (data: MoveData)
    requires
        on_board(grid_view(board), *origin),
        piece_on(grid_view(board), *origin) is Some,
    ensures
        data@ == king_data(grid_view(board), *origin),
{
    let is_white = match &board[origin.row][origin.column] {
        Some(piece) => piece.is_white(),
        None => true,
    };
    let offsets: Vec<(i8, i8)> = if is_white {
        vec![(1i8, 0i8), (0i8, 1i8), (-1i8, 0i8), (0i8, -1i8), (1i8, 1i8), (-1i8, 1i8), (-1i8, -1i8), (1i8, -1i8)]
    } else {
        vec![(-1i8, 0i8), (0i8, 1i8), (1i8, 0i8), (0i8, -1i8), (-1i8, 1i8), (1i8, 1i8), (1i8, -1i8), (-1i8, -1i8)]
    };
    assert(offsets@ =~= king_offsets(is_white));
    get_hop_move_data(origin, board, &offsets)
}

/// Whether the cell at the given coordinates exists, is empty and is not attacked.
pub open spec fn castle_square_free(
    grid: Seq<Seq<Option<Piece>>>,
    row: int,
    column: int,
    attacked: Seq<Position>,
) -> bool {
    empty_at(grid, row, column) && !attacked.contains(square(row, column))
}

/// Whether every cell of `row` in the columns from `from` up to but not including `to` exists,
/// is empty and is not attacked.
pub open spec fn castle_path_free(
    grid: Seq<Seq<Option<Piece>>>,
    row: int,
    from: int,
    to: int,
    attacked: Seq<Position>,
) -> bool {
    forall|column: int| from <= column < to ==> #[trigger] castle_square_free(grid, row, column, attacked)
}

/// Whether the king on `origin` may castle long: the squares from the third file up to his own
/// are empty and not attacked, he is not attacked himself, and no piece stands on the second
/// file of his row.
pub open spec fn long_castle_valid(grid: Seq<Seq<Option<Piece>>>, origin: Position, attacked: Seq<Position>) -> bool {
    &&& castle_path_free(grid, origin.row as int, 2, origin.column as int, attacked)
    &&& !attacked.contains(origin)
    &&& piece_at(grid, origin.row as int, 1) is None
}

/// Whether the king on `origin` may castle short: the squares beyond his own up to the seventh
/// file are empty and not attacked, and he is not attacked himself.
pub open spec fn short_castle_valid(grid: Seq<Seq<Option<Piece>>>, origin: Position, attacked: Seq<Position>) -> bool {
    &&& castle_path_free(grid, origin.row as int, origin.column + 1, 7, attacked)
    &&& !attacked.contains(origin)
}

/// Checks whether the king on `origin` may castle long, given the squares that the other side
/// attacks.
pub fn is_king_long_castle_valid(
    origin: &Position,
    board: &Vec<Vec<Option<Piece>>>,
    attacked_positions: &Vec<Position>,
) -> (valid: bool)
    ensures
        valid == long_castle_valid(grid_view(board), *origin, attacked_positions@),
{
    let mut is_valid = is_castle_valid(origin.row, 2, origin.column, board, attacked_positions);
    if is_valid {
        let blocked = origin.row < board.len() && 1 < board[origin.row].len() && board[origin.row][1].is_some();
        is_valid = !contains_position(attacked_positions, origin) && !blocked;
    }
    is_valid
}

/// Checks whether the king on `origin` may castle short, given the squares that the other side
/// attacks.
pub fn is_king_short_castle_valid(
    origin: &Position,
    board: &Vec<Vec<Option<Piece>>>,
    attacked_positions: &Vec<Position>,
) -> (valid: bool)
    ensures
        valid == short_castle_valid(grid_view(board), *origin, attacked_positions@),
{
    let from: usize = if origin.column >= 7 {
        7
    } else {
        origin.column + 1
    };
    let mut is_valid = is_castle_valid(origin.row, from, 7, board, attacked_positions);
    if is_valid {
        is_valid = !contains_position(attacked_positions, origin);
    }
    is_valid
}

/// Checks that every cell of `row` in the columns from `from` up to but not including `to`
/// exists, is empty and is not attacked.
pub fn is_castle_valid(
    row: usize,
    from: usize,
    to: usize,
    board: &Vec<Vec<Option<Piece>>>,
    attacked_positions: &Vec<Position>,
) -> (free: bool)
    ensures
        free == castle_path_free(grid_view(board), row as int, from as int, to as int, attacked_positions@),
{
    let ghost grid = grid_view(board);
    let mut i: usize = from;
    while i < to
        invariant
            from <= i || to <= i,
            grid == grid_view(board),
            castle_path_free(grid, row as int, from as int, i as int, attacked_positions@),
        decreases to - i,
    {
        let free = row < board.len() && i < board[row].len() && board[row][i].is_none();
        assert(Position { row, column: i } == square(row as int, i as int));
        assert(free == empty_at(grid, row as int, i as int)) by {
            if row < board.len() {
                assert(grid[row as int] == board@[row as int]@);
            }
        }
        if !free || contains_position(attacked_positions, &Position { row, column: i }) {
            assert(!castle_square_free(grid, row as int, i as int, attacked_positions@));
            return false;
        }
        i += 1;
    }
    true
}

/// The move of the rook that goes with a move of the king by two files: from the eighth file
/// to the sixth when the king goes right, from the first to the fourth when he goes left.
/// None where the piece that moves is no king or goes any other way.
pub open spec fn castle_rook_move(grid: Seq<Seq<Option<Piece>>>, piece_move: PieceMoveView) -> Option<PieceMoveView> {
    let row = piece_move.start.row as int;
    if piece_on(grid, piece_move.start) matches Some(piece) && piece.is_king() {
        if piece_move.end.column == piece_move.start.column + 2 {
            Some(PieceMoveView { start: square(row, 7), end: square(row, 5), promotion: None })
        } else if piece_move.start.column == piece_move.end.column + 2 {
            Some(PieceMoveView { start: square(row, 0), end: square(row, 3), promotion: None })
        } else {
            None
        }
    } else {
        None
    }
}

/// Checks whether a move is a castling move, a king going two files to either side, and
/// returns the move of the rook that goes with it. The board is the one before the move.
pub fn get_castle_move(piece_move: &PieceMove, board: &Vec<Vec<Option<Piece>>>) -> (rook_move: Option<PieceMove>)
    ensures
        move_view(rook_move) == castle_rook_move(grid_view(board), piece_move@),
{
    let column = piece_move.start.column;
    let target_column = piece_move.end.column;
    let row = piece_move.start.row;

    if row < board.len() && column < board[row].len() {
        if let Some(Piece::King(_)) = &board[row][column] {
            if target_column > column && target_column - column == 2 {
                return Some(
                    PieceMove {
                        start: Position { row, column: 7 },
                        end: Position { row, column: 5 },
                        promotion: None,
                    },
                );
            } else if column > target_column && column - target_column == 2 {
                return Some(
                    PieceMove {
                        start: Position { row, column: 0 },
                        end: Position { row, column: 3 },
                        promotion: None,
                    },
                );
            } else {
                return None;
            }
        }
    }
    None
}

/// The moves of a king are squares of the board.
pub proof fn lemma_king_moves_on_board(grid: Seq<Seq<Option<Piece>>>, origin: Position, target: Position)
    requires
        is_board(grid),
        king_data(grid, origin).valid_moves.contains(target),
    ensures
        on_board(grid, target),
{
    let white = white_on(grid, origin);
    let offsets = king_offsets(white);
    lemma_hop_moves_on_board(grid, origin, white, offsets, offsets.len(), target);
}

/// No move of a king ends on a piece of its own side.
pub proof fn lemma_king_moves_avoid_friends(grid: Seq<Seq<Option<Piece>>>, origin: Position, target: Position)
    requires
        is_board(grid),
        king_data(grid, origin).valid_moves.contains(target),
    ensures
        !is_friend(piece_on(grid, target), white_on(grid, origin)),
{
    let white = white_on(grid, origin);
    let offsets = king_offsets(white);
    lemma_hop_moves_avoid_friends(grid, origin, white, offsets, offsets.len(), target);
}

} // verus!
