use vstd::prelude::*;
use crate::board::is_board;
use crate::board::{grid_view, on_board, piece_on};
use crate::move_data::{MoveData, MoveDataView};
use crate::pieces::piece::Piece;
use crate::pieces::piece_util::{
    are_directions, get_slide_move_data, is_friend, lemma_slide_moves_avoid_friends,
    lemma_slide_moves_on_board, slide_data, white_on,
};
use crate::position::Position;

verus! {

/// The directions of a rook, as its own side sees them: backward, forward, left, right.
pub open spec fn rook_directions(white: bool) -> Seq<(i8, i8)> {
    if white {
        seq![(-1i8, 0i8), (1i8, 0i8), (0i8, -1i8), (0i8, 1i8)]
    } else {
        seq![(1i8, 0i8), (-1i8, 0i8), (0i8, -1i8), (0i8, 1i8)]
    }
}

/// The move data of the piece on `origin` when it moves as a rook does.
pub open spec fn rook_data(grid: Seq<Seq<Option<Piece>>>, origin: Position) -> MoveDataView {
    slide_data(grid, origin, white_on(grid, origin), rook_directions(white_on(grid, origin)))
}

/// The move data of a rook on `origin`: along each rank and file, the squares it can move to
/// and attacks, the friendly piece it guards, the opposing piece it pins, and the path to the
/// opposing king where it gives check.
pub fn get_rook_move_data(origin: &Position, board: &Vec<Vec<Option<Piece>>>) -> (data: MoveData)
    requires
        on_board(grid_view(board), *origin),
        piece_on(grid_view(board), *origin) is Some,
    ensures
        data@ == rook_data(grid_view(board), *origin),
{
    let is_white = match &board[origin.row][origin.column] {
        Some(piece) => piece.is_white(),
        None => true,
    };
    let directions: Vec<(i8, i8)> = if is_white {
        vec![(-1i8, 0i8), (1i8, 0i8), (0i8, -1i8), (0i8, 1i8)]
    } else {
        vec![(1i8, 0i8), (-1i8, 0i8), (0i8, -1i8), (0i8, 1i8)]
    };
    assert(directions@ =~= rook_directions(is_white));
    get_slide_move_data(origin, board, &directions)
}

/// The moves of a rook are squares of the board.
pub proof fn lemma_rook_moves_on_board(grid: Seq<Seq<Option<Piece>>>, origin: Position, target: Position)
    requires
        is_board(grid),
        rook_data(grid, origin).valid_moves.contains(target),
    ensures
        on_board(grid, target),
{
    let white = white_on(grid, origin);
    assert(are_directions(rook_directions(white)));
    lemma_slide_moves_on_board(grid, origin, white, rook_directions(white), target);
}

/// No move of a rook ends on a piece of its own side.
pub proof fn lemma_rook_moves_avoid_friends(grid: Seq<Seq<Option<Piece>>>, origin: Position, target: Position)
    requires
        is_board(grid),
        rook_data(grid, origin).valid_moves.contains(target),
    ensures
        !is_friend(piece_on(grid, target), white_on(grid, origin)),
{
    let white = white_on(grid, origin);
    assert(are_directions(rook_directions(white)));
    lemma_slide_moves_avoid_friends(grid, origin, white, rook_directions(white), target);
}

} // verus!
