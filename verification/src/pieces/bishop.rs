use vstd::prelude::*;
use crate::board::is_board;
use crate::board::{grid_view, on_board, piece_on};
use crate::move_data::{MoveData, MoveDataView};
use crate::pieces::piece::Piece;
use crate::pieces::piece_util::{
    are_directions, get_slide_move_data, is_friend, lemma_slide_moves_avoid_friends,
    lemma_slide_moves_on_board, slide_data, white_on,
};
use crate::position::Position;

verus! {

/// The directions of a bishop, as its own side sees them: forward to the left and to the
/// right, then backward to the left and to the right.
pub open spec fn bishop_directions(white: bool) -> Seq<(i8, i8)> {
    if white {
        seq![(1i8, -1i8), (1i8, 1i8), (-1i8, -1i8), (-1i8, 1i8)]
    } else {
        seq![(-1i8, -1i8), (-1i8, 1i8), (1i8, -1i8), (1i8, 1i8)]
    }
}

/// The move data of the piece on `origin` when it moves as a bishop does.
pub open spec fn bishop_data(grid: Seq<Seq<Option<Piece>>>, origin: Position) -> MoveDataView {
    slide_data(grid, origin, white_on(grid, origin), bishop_directions(white_on(grid, origin)))
}

/// The move data of a bishop on `origin`: along each diagonal, the squares it can move to and
/// attacks, the friendly piece it guards, the opposing piece it pins, and the path to the
/// opposing king where it gives check.
pub fn get_bishop_move_data(origin: Position, board: &Vec<Vec<Option<Piece>>>) -> (data: MoveData)
    requires
        on_board(grid_view(board), origin),
        piece_on(grid_view(board), origin) is Some,
    ensures
        data@ == bishop_data(grid_view(board), origin),
{
    let is_white = match &board[origin.row][origin.column] {
        Some(piece) => piece.is_white(),
        None => true,
    };
    let directions: Vec<(i8, i8)> = if is_white {
        vec![(1i8, -1i8), (1i8, 1i8), (-1i8, -1i8), (-1i8, 1i8)]
    } else {
        vec![(-1i8, -1i8), (-1i8, 1i8), (1i8, -1i8), (1i8, 1i8)]
    };
    assert(directions@ =~= bishop_directions(is_white));
    get_slide_move_data(&origin, board, &directions)
}

/// The moves of a bishop are squares of the board.
pub proof fn lemma_bishop_moves_on_board(grid: Seq<Seq<Option<Piece>>>, origin: Position, target: Position)
    requires
        is_board(grid),
        bishop_data(grid, origin).valid_moves.contains(target),
    ensures
        on_board(grid, target),
{
    let white = white_on(grid, origin);
    assert(are_directions(bishop_directions(white)));
    lemma_slide_moves_on_board(grid, origin, white, bishop_directions(white), target);
}

/// No move of a bishop ends on a piece of its own side.
pub proof fn lemma_bishop_moves_avoid_friends(grid: Seq<Seq<Option<Piece>>>, origin: Position, target: Position)
    requires
        is_board(grid),
        bishop_data(grid, origin).valid_moves.contains(target),
    ensures
        !is_friend(piece_on(grid, target), white_on(grid, origin)),
{
    let white = white_on(grid, origin);
    assert(are_directions(bishop_directions(white)));
    lemma_slide_moves_avoid_friends(grid, origin, white, bishop_directions(white), target);
}

} // verus!
