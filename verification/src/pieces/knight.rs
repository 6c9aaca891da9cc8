use vstd::prelude::*;
use crate::board::is_board;
use crate::board::{grid_view, on_board, piece_on};
use crate::move_data::{MoveData, MoveDataView};
use crate::pieces::piece::Piece;
use crate::pieces::piece_util::{
    get_hop_move_data, hop_data, is_friend, lemma_hop_moves_avoid_friends, lemma_hop_moves_on_board,
    white_on,
};
use crate::position::Position;

verus! {

/// The eight hops of a knight, as its own side sees them, clockwise from two forward and one
/// to the right.
pub open spec fn knight_offsets(white: bool) -> Seq<(i8, i8)> {
    if white {
        seq![
            (2i8, 1i8),
            (1i8, 2i8),
            (-1i8, 2i8),
            (-2i8, 1i8),
            (-2i8, -1i8),
            (-1i8, -2i8),
            (1i8, -2i8),
            (2i8, -1i8),
        ]
    } else {
        seq![
            (-2i8, 1i8),
            (-1i8, 2i8),
            (1i8, 2i8),
            (2i8, 1i8),
            (2i8, -1i8),
            (1i8, -2i8),
            (-1i8, -2i8),
            (-2i8, -1i8),
        ]
    }
}

/// The move data of the piece on `origin` when it moves as a knight does.
pub open spec fn knight_data(grid: Seq<Seq<Option<Piece>>>, origin: Position) -> MoveDataView {
    hop_data(grid, origin, white_on(grid, origin), knight_offsets(white_on(grid, origin)))
}

/// The move data of a knight on `origin`: the squares it can move to and attacks, the friendly
/// pieces it guards, and an empty checking path where it attacks the opposing king. A knight
/// pins nothing.
pub fn get_knight_move_data(origin: &Position, board: &Vec<Vec<Option<Piece>>>) -> (data: MoveData)
    requires
        on_board(grid_view(board), *origin),
        piece_on(grid_view(board), *origin) is Some,
    ensures
        data@ == knight_data(grid_view(board), *origin),
{
    let is_white = match &board[origin.row][origin.column] {
        Some(piece) => piece.is_white(),
        None => true,
    };
    let offsets: Vec<(i8, i8)> = if is_white {
        vec![
            (2i8, 1i8),
            (1i8, 2i8),
            (-1i8, 2i8),
            (-2i8, 1i8),
            (-2i8, -1i8),
            (-1i8, -2i8),
            (1i8, -2i8),
            (2i8, -1i8),
        ]
    } else {
        vec![
            (-2i8, 1i8),
            (-1i8, 2i8),
            (1i8, 2i8),
            (2i8, 1i8),
            (2i8, -1i8),
            (1i8, -2i8),
            (-1i8, -2i8),
            (-2i8, -1i8),
        ]
    };
    assert(offsets@ =~= knight_offsets(is_white));
    get_hop_move_data(origin, board, &offsets)
}

/// The moves of a knight are squares of the board.
pub proof fn lemma_knight_moves_on_board(grid: Seq<Seq<Option<Piece>>>, origin: Position, target: Position)
    requires
        is_board(grid),
        knight_data(grid, origin).valid_moves.contains(target),
    ensures
        on_board(grid, target),
{
    let white = white_on(grid, origin);
    let offsets = knight_offsets(white);
    lemma_hop_moves_on_board(grid, origin, white, offsets, offsets.len(), target);
}

/// No move of a knight ends on a piece of its own side.
pub proof fn lemma_knight_moves_avoid_friends(grid: Seq<Seq<Option<Piece>>>, origin: Position, target: Position)
    requires
        is_board(grid),
        knight_data(grid, origin).valid_moves.contains(target),
    ensures
        !is_friend(piece_on(grid, target), white_on(grid, origin)),
{
    let white = white_on(grid, origin);
    let offsets = knight_offsets(white);
    lemma_hop_moves_avoid_friends(grid, origin, white, offsets, offsets.len(), target);
}

} // verus!
