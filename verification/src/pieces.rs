//! Move generation, one algorithm per kind of piece.

use vstd::prelude::*;
use crate::board::is_board;
use crate::board::{grid_view, on_board, piece_at, piece_on};
use crate::move_data::{no_moves, MoveData, MoveDataView};
use crate::piece_move::{move_view, PieceMove, PieceMoveView};
use crate::position::Position;
use self::piece::Piece;
use self::piece_util::{
    are_directions, empty_at_distance, is_direction, is_enemy, is_enemy_king, ray_square, slides_to, steps,
};

pub mod bishop;
pub mod king;
pub mod knight;
pub mod pawn;
pub mod piece;
pub mod piece_util;
pub mod queen;
pub mod rook;

verus! {

/// The move data of the piece on `position`, by its kind, after the given move; that of a
/// piece that can do nothing where the square is empty.
pub open spec fn move_data_of(
    grid: Seq<Seq<Option<Piece>>>,
    position: Position,
    last_move: Option<PieceMoveView>,
) -> MoveDataView {
    match piece_on(grid, position) {
        Some(Piece::Bishop(_)) => bishop::bishop_data(grid, position),
        Some(Piece::Knight(_)) => knight::knight_data(grid, position),
        Some(Piece::Pawn(_)) => pawn::pawn_data(grid, position, last_move),
        Some(Piece::Queen(_)) => queen::queen_data(grid, position),
        Some(Piece::Rook(_)) => rook::rook_data(grid, position),
        Some(Piece::King(_)) => king::king_data(grid, position),
        None => no_moves(position),
    }
}

/// The move data of the piece on `position`, whatever its kind, given the move made just
/// before.
pub fn get_move_data(position: &Position, board: &Vec<Vec<Option<Piece>>>, last_move: &Option<PieceMove>) -> (data:
    MoveData)
    requires
        on_board(grid_view(board), *position),
        piece_on(grid_view(board), *position) is Some,
    ensures
        data@ == move_data_of(grid_view(board), *position, move_view(*last_move)),
{
    match &board[position.row][position.column] {
        Some(Piece::Bishop(_)) => bishop::get_bishop_move_data(*position, board),
        Some(Piece::Knight(_)) => knight::get_knight_move_data(position, board),
        Some(Piece::Pawn(_)) => pawn::get_pawn_move_data(position, board, last_move),
        Some(Piece::Queen(_)) => queen::get_queen_move_data(position, board),
        Some(Piece::Rook(_)) => rook::get_rook_move_data(position, board),
        Some(Piece::King(_)) => king::get_king_move_data(position, board),
        None => MoveData {
            position: *position,
            valid_moves: Vec::new(),
            attacks: Vec::new(),
            defends: Vec::new(),
            pins: Vec::new(),
            checking_path: None,
        },
    }
}

/// Every move that the move generator gives a piece is a square of the board.
pub proof fn lemma_moves_on_board(
    grid: Seq<Seq<Option<Piece>>>,
    position: Position,
    last_move: Option<PieceMoveView>,
    target: Position,
)
    requires
        is_board(grid),
        move_data_of(grid, position, last_move).valid_moves.contains(target),
    ensures
        on_board(grid, target),
{
    match piece_on(grid, position) {
        Some(Piece::Bishop(_)) => {
            bishop::lemma_bishop_moves_on_board(grid, position, target);
        },
        Some(Piece::Knight(_)) => {
            knight::lemma_knight_moves_on_board(grid, position, target);
        },
        Some(Piece::Pawn(_)) => {
            pawn::lemma_pawn_moves_on_board(grid, position, last_move, target);
        },
        Some(Piece::Queen(_)) => {
            queen::lemma_queen_moves_on_board(grid, position, target);
        },
        Some(Piece::Rook(_)) => {
            rook::lemma_rook_moves_on_board(grid, position, target);
        },
        Some(Piece::King(_)) => {
            king::lemma_king_moves_on_board(grid, position, target);
        },
        None => {},
    }
}

/// A bishop, a rook or a queen never moves beyond the first piece in its way: each of its
/// moves lies in one of the eight directions from its square, and every cell between the two
/// is empty.
pub proof fn lemma_sliding_piece_stops_at_first_piece(
    board: Vec<Vec<Option<Piece>>>,
    position: Position,
    last_move: Option<PieceMoveView>,
    target: Position,
)
    requires
        piece_on(grid_view(&board), position) matches Some(piece) && (piece is Bishop || piece is Rook
            || piece is Queen),
        move_data_of(grid_view(&board), position, last_move).valid_moves.contains(target),
    ensures
        exists|d_row: int, d_column: int|
            is_direction(d_row, d_column) && #[trigger] slides_to(
                grid_view(&board),
                position,
                d_row,
                d_column,
                target,
            ),
{
    let grid = grid_view(&board);
    let white = piece_util::white_on(grid, position);
    let directions = match piece_on(grid, position) {
        Some(Piece::Bishop(_)) => bishop::bishop_directions(white),
        Some(Piece::Rook(_)) => rook::rook_directions(white),
        _ => queen::queen_directions(white),
    };
    assert(are_directions(directions));
    piece_util::lemma_slide_moves_stop_at_first_piece(grid, position, white, directions, target);
    let index = choose|index: int|
        0 <= index < directions.len() && #[trigger] slides_to(
            grid,
            position,
            directions[index].0 as int,
            directions[index].1 as int,
            target,
        );
    assert(is_direction(directions[index].0 as int, directions[index].1 as int));
}

/// A rook pins a piece to its king: where a rook, an opposing piece other than the king and
/// the opposing king stand on one rank or file in that order, with nothing between them, the
/// square of the piece in the middle is among the pins of the rook.
pub proof fn lemma_rook_pins_piece_before_king(
    board: Vec<Vec<Option<Piece>>>,
    rook: Position,
    last_move: Option<PieceMoveView>,
    d_row: int,
    d_column: int,
    first: int,
    second: int,
)
    requires
        piece_on(grid_view(&board), rook) matches Some(Piece::Rook(_)),
        is_direction(d_row, d_column),
        d_row == 0 || d_column == 0,
        1 <= first < second,
        forall|step: int|
            1 <= step < second && step != first ==> #[trigger] empty_at_distance(
                grid_view(&board),
                rook.row as int,
                rook.column as int,
                d_row,
                d_column,
                step,
            ),
        is_enemy(
            piece_at(grid_view(&board), rook.row + steps(d_row, first), rook.column + steps(d_column, first)),
            piece_util::white_on(grid_view(&board), rook),
        ),
        !is_enemy_king(
            piece_at(grid_view(&board), rook.row + steps(d_row, first), rook.column + steps(d_column, first)),
            piece_util::white_on(grid_view(&board), rook),
        ),
        is_enemy_king(
            piece_at(grid_view(&board), rook.row + steps(d_row, second), rook.column + steps(d_column, second)),
            piece_util::white_on(grid_view(&board), rook),
        ),
    ensures
        move_data_of(grid_view(&board), rook, last_move).pins.contains(
            ray_square(rook.row as int, rook.column as int, d_row, d_column, first),
        ),
{
    let grid = grid_view(&board);
    let white = piece_util::white_on(grid, rook);
    let directions = rook::rook_directions(white);
    piece_util::lemma_line_pins_piece_before_king(grid, rook, d_row, d_column, white, first, second);
    let pinned = ray_square(rook.row as int, rook.column as int, d_row, d_column, first);
    let index = choose|index: int|
        0 <= index < directions.len() && directions[index].0 as int == d_row && directions[index].1 as int
            == d_column;
    assert(directions[0].0 as int == d_row && directions[0].1 as int == d_column || directions[1].0 as int == d_row
        && directions[1].1 as int == d_column || directions[2].0 as int == d_row && directions[2].1 as int
        == d_column || directions[3].0 as int == d_row && directions[3].1 as int == d_column);
    assert(seq![pinned][0] == pinned);
    piece_util::lemma_slide_pins_include_line(grid, rook, white, directions, directions.len(), index, pinned);
}

/// What a piece pins is an opposing piece other than the king, on the board.
pub proof fn lemma_pin_is_opposing_piece(
    grid: Seq<Seq<Option<Piece>>>,
    position: Position,
    last_move: Option<PieceMoveView>,
    pinned: Position,
)
    requires
        is_board(grid),
        piece_on(grid, position) is Some,
        move_data_of(grid, position, last_move).pins.contains(pinned),
    ensures
        on_board(grid, pinned),
        is_enemy(piece_on(grid, pinned), piece_util::white_on(grid, position)),
        !is_enemy_king(piece_on(grid, pinned), piece_util::white_on(grid, position)),
{
    let white = piece_util::white_on(grid, position);
    match piece_on(grid, position) {
        Some(Piece::Bishop(_)) => {
            let directions = bishop::bishop_directions(white);
            piece_util::lemma_slide_pin_is_opposing_piece(grid, position, white, directions, directions.len(), pinned);
        },
        Some(Piece::Queen(_)) => {
            let directions = queen::queen_directions(white);
            piece_util::lemma_slide_pin_is_opposing_piece(grid, position, white, directions, directions.len(), pinned);
        },
        Some(Piece::Rook(_)) => {
            let directions = rook::rook_directions(white);
            piece_util::lemma_slide_pin_is_opposing_piece(grid, position, white, directions, directions.len(), pinned);
        },
        _ => {},
    }
}

/// No move that the move generator gives a piece ends where the piece stands.
pub proof fn lemma_moves_leave_the_square(
    grid: Seq<Seq<Option<Piece>>>,
    position: Position,
    last_move: Option<PieceMoveView>,
    target: Position,
)
    requires
        is_board(grid),
        piece_on(grid, position) is Some,
        move_data_of(grid, position, last_move).valid_moves.contains(target),
    ensures
        target != position,
{
    match piece_on(grid, position) {
        Some(Piece::Bishop(_)) => {
            bishop::lemma_bishop_moves_avoid_friends(grid, position, target);
        },
        Some(Piece::Knight(_)) => {
            knight::lemma_knight_moves_avoid_friends(grid, position, target);
        },
        Some(Piece::Pawn(_)) => {
            pawn::lemma_pawn_moves_leave_the_square(grid, position, last_move, target);
        },
        Some(Piece::Queen(_)) => {
            queen::lemma_queen_moves_avoid_friends(grid, position, target);
        },
        Some(Piece::Rook(_)) => {
            rook::lemma_rook_moves_avoid_friends(grid, position, target);
        },
        Some(Piece::King(_)) => {
            king::lemma_king_moves_avoid_friends(grid, position, target);
        },
        None => {},
    }
}

} // verus!
