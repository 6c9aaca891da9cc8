use vstd::prelude::*;
use crate::board::is_board;
use crate::board::{empty_at, grid_view, in_bounds, on_board, piece_at, piece_on};
use crate::move_data::{MoveData, MoveDataView};
use crate::piece_move::{move_view, PieceMove, PieceMoveView};
use crate::pieces::piece::Piece;
use crate::pieces::piece_util::{hop_checks, hop_defends, hop_moves, is_enemy, neighbour, white_on};
use crate::position::{square, Position};

verus! {

/// The direction in which the pawns of a side advance: up the rows for white, down for black.
pub open spec fn forward(white: bool) -> int {
    if white {
        1
    } else {
        -1
    }
}

/// The row on which the pawns of a side start: the second row for white, the last but one for
/// black.
pub open spec fn pawn_start_row(grid: Seq<Seq<Option<Piece>>>, white: bool) -> int {
    if white {
        1
    } else {
        grid.len() - 2
    }
}

/// The square at the given coordinates where a pawn can advance to it: the grid has the cell
/// and it is empty.
pub open spec fn advance_moves(grid: Seq<Seq<Option<Piece>>>, row: int, column: int) -> Seq<Position> {
    if empty_at(grid, row, column) {
        seq![square(row, column)]
    } else {
        Seq::empty()
    }
}

/// The squares a pawn of the side `white` on `origin` can advance to: the next square of its
/// file where that is empty, and from the starting row the one after it where that is empty too.
pub open spec fn pawn_advances(grid: Seq<Seq<Option<Piece>>>, origin: Position, white: bool) -> Seq<Position> {
    let one = advance_moves(grid, origin.row + forward(white), origin.column as int);
    if empty_at(grid, origin.row + forward(white), origin.column as int) && origin.row == pawn_start_row(
        grid,
        white,
    ) {
        one + advance_moves(grid, origin.row + 2 * forward(white), origin.column as int)
    } else {
        one
    }
}

/// The square at the given coordinates where a pawn of the side `white` can capture on it: an
/// opposing piece stands there.
pub open spec fn capture_moves(grid: Seq<Seq<Option<Piece>>>, row: int, column: int, white: bool) -> Seq<Position> {
    if is_enemy(piece_at(grid, row, column), white) {
        seq![square(row, column)]
    } else {
        Seq::empty()
    }
}

/// The square to which a pawn of the side `white` on `origin` can capture in passing, if the
/// move before was an advance of two rows by an opposing pawn that now stands beside it: the
/// square of that pawn's file on the next row.
pub open spec fn en_passant_target(
    grid: Seq<Seq<Option<Piece>>>,
    origin: Position,
    white: bool,
    last_move: Option<PieceMoveView>,
) -> Option<Position> {
    match last_move {
        Some(last) => {
            if piece_on(grid, last.end) == Some(Piece::Pawn(!white)) && last.end.row == origin.row && last.start.row
                == last.end.row + 2 * forward(white) && (last.end.column == origin.column + 1 || last.end.column + 1
                == origin.column) && in_bounds(grid, origin.row + forward(white), last.end.column as int) {
                Some(square(origin.row + forward(white), last.end.column as int))
            } else {
                None
            }
        },
        None => None,
    }
}

/// The squares that an optional square stands for: itself, or none.
pub open spec fn optional_square(target: Option<Position>) -> Seq<Position> {
    match target {
        Some(at) => seq![at],
        None => Seq::empty(),
    }
}

/// The move data of the piece on `origin` when it moves as a pawn does, after the given move.
/// Its moves are its advances, its captures to the left and to the right, and the capture in
/// passing. It attacks the two squares diagonally ahead unless a friendly piece stands there,
/// which it guards instead. A pawn pins nothing, and a check it gives cannot be blocked.
pub open spec fn pawn_data(
    grid: Seq<Seq<Option<Piece>>>,
    origin: Position,
    last_move: Option<PieceMoveView>,
) -> MoveDataView {
    let white = white_on(grid, origin);
    let row = origin.row + forward(white);
    let left = origin.column - 1;
    let right = origin.column + 1;
    MoveDataView {
        position: origin,
        valid_moves: pawn_advances(grid, origin, white) + capture_moves(grid, row, left, white) + capture_moves(
            grid,
            row,
            right,
            white,
        ) + optional_square(en_passant_target(grid, origin, white, last_move)),
        attacks: hop_moves(grid, row, left, white) + hop_moves(grid, row, right, white),
        defends: hop_defends(grid, row, left, white) + hop_defends(grid, row, right, white),
        pins: Seq::empty(),
        checking_path: if hop_checks(grid, row, left, white) || hop_checks(grid, row, right, white) {
            Some(Seq::empty())
        } else {
            None
        },
    }
}

/// The move data of a pawn on `origin`, given the move made just before.
pub fn get_pawn_move_data(origin: &Position, board: &Vec<Vec<Option<Piece>>>, last_move: &Option<PieceMove>) -> (data:
    MoveData)
    requires
        on_board(grid_view(board), *origin),
        piece_on(grid_view(board), *origin) is Some,
    ensures
        data@ == pawn_data(grid_view(board), *origin, move_view(*last_move)),
{
    let mut valid_moves: Vec<Position> = Vec::new();
    let mut attacks: Vec<Position> = Vec::new();
    let mut defends: Vec<Position> = Vec::new();
    let mut checking_path: Option<Vec<Position>> = None;
    let mut checking = false;

    let is_white = match &board[origin.row][origin.column] {
        Some(piece) => piece.is_white(),
        None => true,
    };
    let ahead: i8 = if is_white {
        1
    } else {
        -1
    };
    let twice_ahead: i8 = if is_white {
        2
    } else {
        -2
    };
    let on_start_row = if is_white {
        origin.row == 1
    } else {
        board.len() >= 2 && origin.row == board.len() - 2
    };
    let ghost grid = grid_view(board);
    assert(grid.len() == board.len());

    let can_move = examine_move_position(origin.row, origin.column, (ahead, 0), board, &mut valid_moves);
    if can_move && on_start_row {
        examine_move_position(origin.row, origin.column, (twice_ahead, 0), board, &mut valid_moves);
    }
    assert(valid_moves@ =~= pawn_advances(grid, *origin, is_white));

    examine_attack_position(
        origin.row,
        origin.column,
        (ahead, -1),
        board,
        is_white,
        &mut valid_moves,
        &mut attacks,
        &mut defends,
        &mut checking,
    );
    examine_attack_position(
        origin.row,
        origin.column,
        (ahead, 1),
        board,
        is_white,
        &mut valid_moves,
        &mut attacks,
        &mut defends,
        &mut checking,
    );

    if let Some(l_move) = last_move {
        if let Some(target) = en_passant_capture(origin, board, is_white, l_move) {
            valid_moves.push(target);
        }
    }

    if checking {
        checking_path = Some(Vec::new());
    }
    let data = MoveData { position: *origin, valid_moves, attacks, defends, pins: Vec::new(), checking_path };
    proof {
        let expected = pawn_data(grid, *origin, move_view(*last_move));
        assert(data@.valid_moves =~= expected.valid_moves);
        assert(data@.attacks =~= expected.attacks);
        assert(data@.defends =~= expected.defends);
        assert(data@.pins =~= expected.pins);
        assert(data@.checking_path =~= expected.checking_path);
    }
    data
}

/// The square to which a pawn of the side `is_white` on `origin` can capture in passing after
/// the move `last_move`, if there is one.
pub fn en_passant_capture(
    origin: &Position,
    board: &Vec<Vec<Option<Piece>>>,
    is_white: bool,
    last_move: &PieceMove,
) -> (target: Option<Position>)
    requires
        on_board(grid_view(board), *origin),
    ensures
        target == en_passant_target(grid_view(board), *origin, is_white, Some(last_move@)),
{
    let last_target = &last_move.end;
    let ghost grid = grid_view(board);
    assert(grid.len() == board.len());
    if last_target.row != origin.row || last_target.column >= board[origin.row].len() {
        return None;
    }
    let is_pawn = match &board[last_target.row][last_target.column] {
        Some(Piece::Pawn(white)) => *white != is_white,
        _ => false,
    };
    if !is_pawn {
        return None;
    }
    let two_rows = if is_white {
        last_move.start.row >= 2 && last_move.start.row - 2 == last_target.row
    } else {
        last_target.row >= 2 && last_target.row - 2 == last_move.start.row
    };
    if !two_rows {
        return None;
    }
    let beside = (last_target.column > origin.column && last_target.column - origin.column == 1) || (origin.column
        > last_target.column && origin.column - last_target.column == 1);
    if !beside {
        return None;
    }
    let ahead: i8 = if is_white {
        1
    } else {
        -1
    };
    match neighbour(board, origin.row, last_target.column, (ahead, 0)) {
        Some(at) => {
            assert(at == square(origin.row + forward(is_white), last_target.column as int));
            Some(at)
        },
        None => None,
    }
}

/// Examines a cell that a pawn can only move to: where the grid has the cell and it is empty,
/// the square is added to the moves. Returns whether it was.
pub fn examine_move_position(
    origin_row: usize,
    origin_column: usize,
    offset: (i8, i8),
    board: &Vec<Vec<Option<Piece>>>,
    moves: &mut Vec<Position>,
) -> (moved: bool)
    ensures
        moved == empty_at(grid_view(board), origin_row + offset.0, origin_column + offset.1),
        final(moves)@ == old(moves)@ + advance_moves(
            grid_view(board),
            origin_row + offset.0,
            origin_column + offset.1,
        ),
{
    let mut moved = false;
    if let Some(at) = neighbour(board, origin_row, origin_column, offset) {
        assert(at == square(origin_row + offset.0, origin_column + offset.1));
        if board[at.row][at.column].is_none() {
            moves.push(at);
            moved = true;
        }
    }
    assert(final(moves)@ =~= old(moves)@ + advance_moves(
        grid_view(board),
        origin_row + offset.0,
        origin_column + offset.1,
    ));
    moved
}

/// Examines a cell that a pawn of the side `is_white` can only capture on: with an opposing
/// piece there the square is a move and an attack, and the opposing king there is in check;
/// an empty cell is attacked; a friendly piece there is guarded. Nothing changes where the grid
/// has no such cell.
pub fn examine_attack_position(
    origin_row: usize,
    origin_column: usize,
    offset: (i8, i8),
    board: &Vec<Vec<Option<Piece>>>,
    is_white: bool,
    valid_moves: &mut Vec<Position>,
    attacks: &mut Vec<Position>,
    defends: &mut Vec<Position>,
    checking: &mut bool,
)
    ensures
        final(valid_moves)@ == old(valid_moves)@ + capture_moves(
            grid_view(board),
            origin_row + offset.0,
            origin_column + offset.1,
            is_white,
        ),
        final(attacks)@ == old(attacks)@ + hop_moves(
            grid_view(board),
            origin_row + offset.0,
            origin_column + offset.1,
            is_white,
        ),
        final(defends)@ == old(defends)@ + hop_defends(
            grid_view(board),
            origin_row + offset.0,
            origin_column + offset.1,
            is_white,
        ),
        *final(checking) == (*old(checking) || hop_checks(
            grid_view(board),
            origin_row + offset.0,
            origin_column + offset.1,
            is_white,
        )),
{
    if let Some(at) = neighbour(board, origin_row, origin_column, offset) {
        assert(at == square(origin_row + offset.0, origin_column + offset.1));
        match &board[at.row][at.column] {
            None => {
                attacks.push(at);
            },
            Some(chess_piece) => {
                if is_white == chess_piece.is_white() {
                    defends.push(at);
                } else {
                    valid_moves.push(at);
                    attacks.push(at);
                    if chess_piece.is_king() {
                        *checking = true;
                    }
                }
            },
        }
    }
    proof {
        let grid = grid_view(board);
        let row = origin_row + offset.0;
        let column = origin_column + offset.1;
        assert(final(valid_moves)@ =~= old(valid_moves)@ + capture_moves(grid, row, column, is_white));
        assert(final(attacks)@ =~= old(attacks)@ + hop_moves(grid, row, column, is_white));
        assert(final(defends)@ =~= old(defends)@ + hop_defends(grid, row, column, is_white));
    }
}

/// The square of the pawn that a move captures in passing: the piece that moves is a pawn, it
/// changes file and the square it goes to is empty. The pawn taken stands on the row the move
/// starts from, in the file it ends in.
pub open spec fn en_passant_taken(grid: Seq<Seq<Option<Piece>>>, piece_move: PieceMoveView) -> Option<Position> {
    if piece_on(grid, piece_move.start) matches Some(Piece::Pawn(_)) && piece_move.end.column
        != piece_move.start.column && empty_at(grid, piece_move.end.row as int, piece_move.end.column as int) {
        Some(Position { row: piece_move.start.row, column: piece_move.end.column })
    } else {
        None
    }
}

/// Checks whether a move is a capture in passing and returns the square of the pawn it takes.
/// The board is the one before the move.
pub fn get_en_passant_move(piece_move: &PieceMove, board: &Vec<Vec<Option<Piece>>>) -> (taken: Option<Position>)
    ensures
        taken == en_passant_taken(grid_view(board), piece_move@),
{
    let start = &piece_move.start;
    let end = &piece_move.end;
    let ghost grid = grid_view(board);
    assert(grid.len() == board.len());
    if start.row < board.len() && start.column < board[start.row].len() && end.row < board.len() {
        assert(grid[start.row as int] == board@[start.row as int]@);
        assert(grid[end.row as int] == board@[end.row as int]@);
        if end.column < board[end.row].len() {
            if let Some(Piece::Pawn(_)) = &board[start.row][start.column] {
                if end.column != start.column && board[end.row][end.column].is_none() {
                    return Some(Position { row: start.row, column: end.column });
                }
            }
        }
    }
    None
}

/// The moves of a pawn are squares of the board.
pub proof fn lemma_pawn_moves_on_board(
    grid: Seq<Seq<Option<Piece>>>,
    origin: Position,
    last_move: Option<PieceMoveView>,
    target: Position,
)
    requires
        is_board(grid),
        pawn_data(grid, origin, last_move).valid_moves.contains(target),
    ensures
        on_board(grid, target),
{
    let white = white_on(grid, origin);
    let row = origin.row + forward(white);
    let advances = pawn_advances(grid, origin, white);
    let left = capture_moves(grid, row, origin.column - 1, white);
    let right = capture_moves(grid, row, origin.column + 1, white);
    let passing = optional_square(en_passant_target(grid, origin, white, last_move));
    let moves = advances + left + right + passing;
    let at = choose|at: int| 0 <= at < moves.len() && moves[at] == target;
    assert(forall|r: int| 0 <= r < grid.len() ==> (#[trigger] grid[r]).len() <= usize::MAX);
    if at < advances.len() {
        assert(advances[at] == target);
    } else if at < advances.len() + left.len() {
        assert(left[at - advances.len()] == target);
    } else if at < advances.len() + left.len() + right.len() {
        assert(right[at - advances.len() - left.len()] == target);
    } else {
        assert(passing[at - advances.len() - left.len() - right.len()] == target);
    }
}

/// No move of a pawn ends where the pawn stands.
pub proof fn lemma_pawn_moves_leave_the_square(
    grid: Seq<Seq<Option<Piece>>>,
    origin: Position,
    last_move: Option<PieceMoveView>,
    target: Position,
)
    requires
        is_board(grid),
        piece_on(grid, origin) is Some,
        pawn_data(grid, origin, last_move).valid_moves.contains(target),
    ensures
        target != origin,
{
    let white = white_on(grid, origin);
    let row = origin.row + forward(white);
    let advances = pawn_advances(grid, origin, white);
    let left = capture_moves(grid, row, origin.column - 1, white);
    let right = capture_moves(grid, row, origin.column + 1, white);
    let passing = optional_square(en_passant_target(grid, origin, white, last_move));
    let moves = advances + left + right + passing;
    let at = choose|at: int| 0 <= at < moves.len() && moves[at] == target;
    assert(forall|r: int| 0 <= r < grid.len() ==> (#[trigger] grid[r]).len() <= usize::MAX);
    if at < advances.len() {
        assert(advances[at] == target);
    } else if at < advances.len() + left.len() {
        assert(left[at - advances.len()] == target);
    } else if at < advances.len() + left.len() + right.len() {
        assert(right[at - advances.len() - left.len()] == target);
    } else {
        assert(passing[at - advances.len() - left.len() - right.len()] == target);
    }
}

} // verus!
