//! The symmetry of the rules: a position and its mirror image, with the colours exchanged and
//! the rows turned over, are judged alike.

use vstd::prelude::*;
use crate::board::{
    empty_at, grid_view, in_bounds, is_board, lemma_grid_view_is_board, on_board, piece_at, piece_on,
};
use crate::evaluator::{
    any_restricted_move, board_scan, castle_moves, evaluation_of, is_opposing_king, king_moves,
    lemma_board_scan_is_sound, opposing_entries, resolves_check, resolving_moves, restricted_moves, row_scan,
    safe_moves, scan_cell, scan_evaluation, scan_row_at, EvaluationView, ScanView,
};
use crate::game::GameState;
use crate::move_data::MoveDataView;
use crate::piece_move::PieceMoveView;
use crate::pieces::move_data_of;
use crate::pieces::pawn::{
    advance_moves, capture_moves, en_passant_target, forward, optional_square, pawn_advances, pawn_data,
    pawn_start_row,
};
use crate::pieces::piece::Piece;
use crate::pieces::bishop::{bishop_data, bishop_directions};
use crate::pieces::king::{
    castle_path_free, castle_square_free, king_data, king_offsets, long_castle_valid, short_castle_valid,
};
use crate::pieces::knight::{knight_data, knight_offsets};
use crate::pieces::piece_util::{
    are_directions, clear_run, empty_at_distance, first_piece, hop_checks, hop_data, hop_defends, hop_moves,
    hops_check, hops_defends, hops_moves, is_direction, lemma_clear_run, line_checks, line_defends, line_moves,
    line_pins, open_squares, ray_square, slide_data, slide_defends, slide_moves, slide_path, slide_pins, steps,
    white_on,
};
use crate::pieces::queen::{queen_data, queen_directions};
use crate::pieces::rook::{rook_data, rook_directions};
use crate::position::{square, Position};

verus! {

/// The piece of the same kind and the other colour.
pub open spec fn swapped(piece: Piece) -> Piece {
    match piece {
        Piece::Bishop(white) => Piece::Bishop(!white),
        Piece::King(white) => Piece::King(!white),
        Piece::Knight(white) => Piece::Knight(!white),
        Piece::Pawn(white) => Piece::Pawn(!white),
        Piece::Queen(white) => Piece::Queen(!white),
        Piece::Rook(white) => Piece::Rook(!white),
    }
}

/// The cell with the piece of the other colour in it, if it holds one.
pub open spec fn swapped_cell(cell: Option<Piece>) -> Option<Piece> {
    match cell {
        Some(piece) => Some(swapped(piece)),
        None => None,
    }
}

/// The mirror image of a grid: the rows in reverse order, and each piece of the other colour.
pub open spec fn mirrored(grid: Seq<Seq<Option<Piece>>>) -> Seq<Seq<Option<Piece>>> {
    Seq::new(
        grid.len(),
        |row: int|
            Seq::new(grid[grid.len() - 1 - row].len(), |column: int| swapped_cell(grid[grid.len() - 1 - row][column])),
    )
}

/// The square that a square becomes in the mirror image of a grid of `rows` rows. A square
/// beyond the rows stays where it is.
pub open spec fn flipped(rows: int, position: Position) -> Position {
    if position.row < rows {
        Position { row: (rows - 1 - position.row) as usize, column: position.column }
    } else {
        position
    }
}

/// The squares that the squares of a list become in the mirror image.
pub open spec fn flipped_all(rows: int, positions: Seq<Position>) -> Seq<Position> {
    Seq::new(positions.len(), |i: int| flipped(rows, positions[i]))
}

/// Mirroring a square twice gives the square, so two squares with one mirror image are one.
pub proof fn lemma_flipped_twice(rows: int, position: Position)
    requires
        rows <= usize::MAX,
    ensures
        flipped(rows, flipped(rows, position)) == position,
{
}

/// A list holds a square just when its mirror image holds the mirror image of the square.
pub proof fn lemma_flipped_contains(rows: int, positions: Seq<Position>, position: Position)
    requires
        rows <= usize::MAX,
    ensures
        flipped_all(rows, positions).contains(flipped(rows, position)) == positions.contains(position),
{
    let image = flipped_all(rows, positions);
    if positions.contains(position) {
        let at = choose|at: int| 0 <= at < positions.len() && positions[at] == position;
        assert(image[at] == flipped(rows, position));
    }
    if image.contains(flipped(rows, position)) {
        let at = choose|at: int| 0 <= at < image.len() && image[at] == flipped(rows, position);
        lemma_flipped_twice(rows, positions[at]);
        lemma_flipped_twice(rows, position);
        assert(positions[at] == position);
    }
}

/// The mirror image of a grid that a board can hold is such a grid, and its cells are those
/// of the grid, row for row from the other end, with the colours exchanged.
pub proof fn lemma_mirrored_cells(grid: Seq<Seq<Option<Piece>>>)
    requires
        is_board(grid),
    ensures
        is_board(mirrored(grid)),
        mirrored(grid).len() == grid.len(),
        forall|row: int, column: int|
            #![trigger piece_at(grid, row, column)]
            piece_at(mirrored(grid), grid.len() - 1 - row, column) == swapped_cell(piece_at(grid, row, column)),
        forall|row: int, column: int|
            #![trigger in_bounds(grid, row, column)]
            in_bounds(mirrored(grid), grid.len() - 1 - row, column) == in_bounds(grid, row, column),
        forall|row: int, column: int|
            #![trigger empty_at(grid, row, column)]
            empty_at(mirrored(grid), grid.len() - 1 - row, column) == empty_at(grid, row, column),
{
    let image = mirrored(grid);
    assert forall|row: int| 0 <= row < image.len() implies (#[trigger] image[row]).len() <= usize::MAX by {
        assert(grid[grid.len() - 1 - row].len() <= usize::MAX);
    }
}

/// As many empty cells follow a cell in a direction as follow its mirror image in the
/// mirrored direction of the mirrored grid.
pub proof fn lemma_mirrored_clear_run(grid: Seq<Seq<Option<Piece>>>, row: int, column: int, d_row: int, d_column: int)
    requires
        is_board(grid),
    ensures
        clear_run(mirrored(grid), grid.len() - 1 - row, column, -d_row, d_column) == clear_run(
            grid,
            row,
            column,
            d_row,
            d_column,
        ),
    decreases clear_run(grid, row, column, d_row, d_column),
{
    lemma_mirrored_cells(grid);
    assert(is_direction(-d_row, d_column) == is_direction(d_row, d_column));
    assert(empty_at(mirrored(grid), grid.len() - 1 - (row + d_row), column + d_column) == empty_at(
        grid,
        row + d_row,
        column + d_column,
    ));
    if is_direction(d_row, d_column) && empty_at(grid, row + d_row, column + d_column) {
        lemma_mirrored_clear_run(grid, row + d_row, column + d_column, d_row, d_column);
    }
}

/// The squares along a line from a cell are the mirror images of those along the mirrored
/// line from the mirror image of the cell, as far as they are squares of the board.
pub proof fn lemma_mirrored_ray_square(
    grid: Seq<Seq<Option<Piece>>>,
    row: int,
    column: int,
    d_row: int,
    d_column: int,
    count: int,
)
    requires
        is_board(grid),
        in_bounds(grid, row + steps(d_row, count), column + steps(d_column, count)),
    ensures
        ray_square(grid.len() - 1 - row, column, -d_row, d_column, count) == flipped(
            grid.len() as int,
            ray_square(row, column, d_row, d_column, count),
        ),
{
    assert(steps(-d_row, count) == -steps(d_row, count));
    assert(grid[row + steps(d_row, count)].len() <= usize::MAX);
}

/// The first piece in a direction from a cell is, but for its colour, the first piece in the
/// mirrored direction from the mirror image of the cell.
pub proof fn lemma_mirrored_first_piece(
    grid: Seq<Seq<Option<Piece>>>,
    row: int,
    column: int,
    d_row: int,
    d_column: int,
)
    requires
        is_board(grid),
    ensures
        first_piece(mirrored(grid), grid.len() - 1 - row, column, -d_row, d_column) == swapped_cell(
            first_piece(grid, row, column, d_row, d_column),
        ),
{
    lemma_mirrored_cells(grid);
    lemma_mirrored_clear_run(grid, row, column, d_row, d_column);
    let count = clear_run(grid, row, column, d_row, d_column) as int + 1;
    assert(steps(-d_row, count) == -steps(d_row, count));
    assert(piece_at(mirrored(grid), grid.len() - 1 - (row + steps(d_row, count)), column + steps(d_column, count))
        == swapped_cell(piece_at(grid, row + steps(d_row, count), column + steps(d_column, count))));
}

/// The empty squares along a line are the mirror images of those along the mirrored line.
pub proof fn lemma_mirrored_open_squares(
    grid: Seq<Seq<Option<Piece>>>,
    row: int,
    column: int,
    d_row: int,
    d_column: int,
)
    requires
        is_board(grid),
        is_direction(d_row, d_column),
    ensures
        open_squares(mirrored(grid), grid.len() - 1 - row, column, -d_row, d_column) == flipped_all(
            grid.len() as int,
            open_squares(grid, row, column, d_row, d_column),
        ),
{
    lemma_mirrored_clear_run(grid, row, column, d_row, d_column);
    lemma_clear_run(grid, row, column, d_row, d_column);
    let count = clear_run(grid, row, column, d_row, d_column);
    let image = open_squares(mirrored(grid), grid.len() - 1 - row, column, -d_row, d_column);
    let expected = flipped_all(grid.len() as int, open_squares(grid, row, column, d_row, d_column));
    assert forall|i: int| 0 <= i < count implies image[i] == expected[i] by {
        assert(empty_at_distance(grid, row, column, d_row, d_column, i + 1));
        lemma_mirrored_ray_square(grid, row, column, d_row, d_column, i + 1);
    }
    assert(image =~= expected);
}

/// What a line holds for a sliding piece is the mirror image of what the mirrored line holds
/// for a piece of the other colour: the moves, the guarded piece, the pinned piece and the
/// check.
pub proof fn lemma_mirrored_line(
    grid: Seq<Seq<Option<Piece>>>,
    row: int,
    column: int,
    d_row: int,
    d_column: int,
    white: bool,
)
    requires
        is_board(grid),
        is_direction(d_row, d_column),
    ensures
        line_moves(mirrored(grid), grid.len() - 1 - row, column, -d_row, d_column, !white) == flipped_all(
            grid.len() as int,
            line_moves(grid, row, column, d_row, d_column, white),
        ),
        line_defends(mirrored(grid), grid.len() - 1 - row, column, -d_row, d_column, !white) == flipped_all(
            grid.len() as int,
            line_defends(grid, row, column, d_row, d_column, white),
        ),
        line_pins(mirrored(grid), grid.len() - 1 - row, column, -d_row, d_column, !white) == flipped_all(
            grid.len() as int,
            line_pins(grid, row, column, d_row, d_column, white),
        ),
        line_checks(mirrored(grid), grid.len() - 1 - row, column, -d_row, d_column, !white) == line_checks(
            grid,
            row,
            column,
            d_row,
            d_column,
            white,
        ),
{
    let rows = grid.len() as int;
    let image = mirrored(grid);
    lemma_mirrored_cells(grid);
    lemma_mirrored_clear_run(grid, row, column, d_row, d_column);
    lemma_mirrored_first_piece(grid, row, column, d_row, d_column);
    lemma_mirrored_open_squares(grid, row, column, d_row, d_column);
    let count = clear_run(grid, row, column, d_row, d_column) as int + 1;
    let first = first_piece(grid, row, column, d_row, d_column);
    let at_row = row + steps(d_row, count);
    let at_column = column + steps(d_column, count);
    assert(steps(-d_row, count) == -steps(d_row, count));
    if first is Some {
        lemma_mirrored_ray_square(grid, row, column, d_row, d_column, count);
        lemma_mirrored_first_piece(grid, at_row, at_column, d_row, d_column);
    }
    assert(line_moves(image, rows - 1 - row, column, -d_row, d_column, !white) =~= flipped_all(
        rows,
        line_moves(grid, row, column, d_row, d_column, white),
    ));
    assert(line_defends(image, rows - 1 - row, column, -d_row, d_column, !white) =~= flipped_all(
        rows,
        line_defends(grid, row, column, d_row, d_column, white),
    ));
    assert(line_pins(image, rows - 1 - row, column, -d_row, d_column, !white) =~= flipped_all(
        rows,
        line_pins(grid, row, column, d_row, d_column, white),
    ));
}

/// The mirror image of an optional path.
pub open spec fn flipped_path(rows: int, path: Option<Seq<Position>>) -> Option<Seq<Position>> {
    match path {
        Some(squares) => Some(flipped_all(rows, squares)),
        None => None,
    }
}

/// The mirror image of a move data: every square of it mirrored.
pub open spec fn flipped_data(rows: int, data: MoveDataView) -> MoveDataView {
    MoveDataView {
        position: flipped(rows, data.position),
        valid_moves: flipped_all(rows, data.valid_moves),
        attacks: flipped_all(rows, data.attacks),
        defends: flipped_all(rows, data.defends),
        pins: flipped_all(rows, data.pins),
        checking_path: flipped_path(rows, data.checking_path),
    }
}

/// Whether one list of steps is the other with the steps along the rows reversed.
pub open spec fn are_mirrored(steps: Seq<(i8, i8)>, image: Seq<(i8, i8)>) -> bool {
    &&& steps.len() == image.len()
    &&& forall|i: int|
        0 <= i < steps.len() ==> (#[trigger] image[i]).0 == -steps[i].0 && image[i].1 == steps[i].1
}

/// The mirror image of two lists joined is the mirror images of the two, joined.
pub proof fn lemma_flipped_join(rows: int, first: Seq<Position>, second: Seq<Position>)
    ensures
        flipped_all(rows, first + second) == flipped_all(rows, first) + flipped_all(rows, second),
{
    assert(flipped_all(rows, first + second) =~= flipped_all(rows, first) + flipped_all(rows, second));
}

/// What a sliding piece finds along the first of its directions is the mirror image of what
/// a piece of the other colour finds from the mirrored square along the mirrored directions.
pub proof fn lemma_mirrored_slide(
    grid: Seq<Seq<Option<Piece>>>,
    origin: Position,
    white: bool,
    directions: Seq<(i8, i8)>,
    image: Seq<(i8, i8)>,
    count: nat,
)
    requires
        is_board(grid),
        on_board(grid, origin),
        are_directions(directions),
        are_mirrored(directions, image),
        count <= directions.len(),
    ensures
        slide_moves(mirrored(grid), flipped(grid.len() as int, origin), !white, image, count) == flipped_all(
            grid.len() as int,
            slide_moves(grid, origin, white, directions, count),
        ),
        slide_defends(mirrored(grid), flipped(grid.len() as int, origin), !white, image, count) == flipped_all(
            grid.len() as int,
            slide_defends(grid, origin, white, directions, count),
        ),
        slide_pins(mirrored(grid), flipped(grid.len() as int, origin), !white, image, count) == flipped_all(
            grid.len() as int,
            slide_pins(grid, origin, white, directions, count),
        ),
        slide_path(mirrored(grid), flipped(grid.len() as int, origin), !white, image, count) == flipped_path(
            grid.len() as int,
            slide_path(grid, origin, white, directions, count),
        ),
    decreases count,
{
    let rows = grid.len() as int;
    let there = flipped(rows, origin);
    if count == 0 {
        assert(flipped_all(rows, Seq::<Position>::empty()) =~= Seq::<Position>::empty());
    } else {
        let before = (count - 1) as nat;
        lemma_mirrored_slide(grid, origin, white, directions, image, before);
        let direction = directions[count - 1];
        let d_row = direction.0 as int;
        let d_column = direction.1 as int;
        assert(image[count - 1].0 as int == -d_row && image[count - 1].1 as int == d_column);
        assert(there.row == rows - 1 - origin.row && there.column == origin.column);
        lemma_mirrored_line(grid, origin.row as int, origin.column as int, d_row, d_column, white);
        lemma_mirrored_open_squares(grid, origin.row as int, origin.column as int, d_row, d_column);
        lemma_flipped_join(
            rows,
            slide_moves(grid, origin, white, directions, before),
            line_moves(grid, origin.row as int, origin.column as int, d_row, d_column, white),
        );
        lemma_flipped_join(
            rows,
            slide_defends(grid, origin, white, directions, before),
            line_defends(grid, origin.row as int, origin.column as int, d_row, d_column, white),
        );
        lemma_flipped_join(
            rows,
            slide_pins(grid, origin, white, directions, before),
            line_pins(grid, origin.row as int, origin.column as int, d_row, d_column, white),
        );
    }
}

/// The colour of the piece on the mirror image of a square is the other colour.
pub proof fn lemma_mirrored_piece(grid: Seq<Seq<Option<Piece>>>, position: Position)
    requires
        is_board(grid),
        on_board(grid, position),
    ensures
        on_board(mirrored(grid), flipped(grid.len() as int, position)),
        piece_on(mirrored(grid), flipped(grid.len() as int, position)) == swapped_cell(piece_on(grid, position)),
        piece_on(grid, position) is Some ==> white_on(mirrored(grid), flipped(grid.len() as int, position))
            == !white_on(grid, position),
{
    lemma_mirrored_cells(grid);
    assert(piece_at(mirrored(grid), grid.len() - 1 - position.row, position.column as int) == swapped_cell(
        piece_at(grid, position.row as int, position.column as int),
    ));
    assert(in_bounds(mirrored(grid), grid.len() - 1 - position.row, position.column as int) == in_bounds(
        grid,
        position.row as int,
        position.column as int,
    ));
}

/// The move data of a piece that slides is the mirror image of that of a piece of the other
/// colour that slides from the mirrored square along the mirrored directions.
pub proof fn lemma_mirrored_slide_data(
    grid: Seq<Seq<Option<Piece>>>,
    origin: Position,
    white: bool,
    directions: Seq<(i8, i8)>,
    image: Seq<(i8, i8)>,
)
    requires
        is_board(grid),
        on_board(grid, origin),
        are_directions(directions),
        are_mirrored(directions, image),
    ensures
        slide_data(mirrored(grid), flipped(grid.len() as int, origin), !white, image) == flipped_data(
            grid.len() as int,
            slide_data(grid, origin, white, directions),
        ),
{
    lemma_mirrored_slide(grid, origin, white, directions, image, directions.len());
}

/// The move data of a rook is the mirror image of that of the rook of the other colour on the
/// mirrored square of the mirrored grid.
pub proof fn lemma_mirrored_rook(grid: Seq<Seq<Option<Piece>>>, origin: Position)
    requires
        is_board(grid),
        on_board(grid, origin),
        piece_on(grid, origin) is Some,
    ensures
        rook_data(mirrored(grid), flipped(grid.len() as int, origin)) == flipped_data(
            grid.len() as int,
            rook_data(grid, origin),
        ),
{
    let white = white_on(grid, origin);
    lemma_mirrored_piece(grid, origin);
    assert(are_directions(rook_directions(white)));
    assert(are_mirrored(rook_directions(white), rook_directions(!white)));
    lemma_mirrored_slide_data(grid, origin, white, rook_directions(white), rook_directions(!white));
}

/// The move data of a bishop is the mirror image of that of the bishop of the other colour on
/// the mirrored square of the mirrored grid.
pub proof fn lemma_mirrored_bishop(grid: Seq<Seq<Option<Piece>>>, origin: Position)
    requires
        is_board(grid),
        on_board(grid, origin),
        piece_on(grid, origin) is Some,
    ensures
        bishop_data(mirrored(grid), flipped(grid.len() as int, origin)) == flipped_data(
            grid.len() as int,
            bishop_data(grid, origin),
        ),
{
    let white = white_on(grid, origin);
    lemma_mirrored_piece(grid, origin);
    assert(are_directions(bishop_directions(white)));
    assert(are_mirrored(bishop_directions(white), bishop_directions(!white)));
    lemma_mirrored_slide_data(grid, origin, white, bishop_directions(white), bishop_directions(!white));
}

/// The move data of a queen is the mirror image of that of the queen of the other colour on
/// the mirrored square of the mirrored grid.
pub proof fn lemma_mirrored_queen(grid: Seq<Seq<Option<Piece>>>, origin: Position)
    requires
        is_board(grid),
        on_board(grid, origin),
        piece_on(grid, origin) is Some,
    ensures
        queen_data(mirrored(grid), flipped(grid.len() as int, origin)) == flipped_data(
            grid.len() as int,
            queen_data(grid, origin),
        ),
{
    let white = white_on(grid, origin);
    lemma_mirrored_piece(grid, origin);
    assert(are_directions(queen_directions(white)));
    assert(are_mirrored(queen_directions(white), queen_directions(!white)));
    lemma_mirrored_slide_data(grid, origin, white, queen_directions(white), queen_directions(!white));
}

/// What a hopping piece finds at a cell is the mirror image of what a piece of the other
/// colour finds at the mirror image of the cell.
pub proof fn lemma_mirrored_hop(grid: Seq<Seq<Option<Piece>>>, row: int, column: int, white: bool)
    requires
        is_board(grid),
    ensures
        hop_moves(mirrored(grid), grid.len() - 1 - row, column, !white) == flipped_all(
            grid.len() as int,
            hop_moves(grid, row, column, white),
        ),
        hop_defends(mirrored(grid), grid.len() - 1 - row, column, !white) == flipped_all(
            grid.len() as int,
            hop_defends(grid, row, column, white),
        ),
        hop_checks(mirrored(grid), grid.len() - 1 - row, column, !white) == hop_checks(grid, row, column, white),
{
    let rows = grid.len() as int;
    lemma_mirrored_cells(grid);
    assert(piece_at(mirrored(grid), rows - 1 - row, column) == swapped_cell(piece_at(grid, row, column)));
    assert(in_bounds(mirrored(grid), rows - 1 - row, column) == in_bounds(grid, row, column));
    if in_bounds(grid, row, column) {
        assert(grid[row].len() <= usize::MAX);
        assert(square(rows - 1 - row, column) == flipped(rows, square(row, column)));
    }
    assert(hop_moves(mirrored(grid), rows - 1 - row, column, !white) =~= flipped_all(
        rows,
        hop_moves(grid, row, column, white),
    ));
    assert(hop_defends(mirrored(grid), rows - 1 - row, column, !white) =~= flipped_all(
        rows,
        hop_defends(grid, row, column, white),
    ));
}

/// What a hopping piece finds by the first of its offsets is the mirror image of what a piece
/// of the other colour finds from the mirrored square by the mirrored offsets.
pub proof fn lemma_mirrored_hops(
    grid: Seq<Seq<Option<Piece>>>,
    origin: Position,
    white: bool,
    offsets: Seq<(i8, i8)>,
    image: Seq<(i8, i8)>,
    count: nat,
)
    requires
        is_board(grid),
        on_board(grid, origin),
        are_mirrored(offsets, image),
        count <= offsets.len(),
    ensures
        hops_moves(mirrored(grid), flipped(grid.len() as int, origin), !white, image, count) == flipped_all(
            grid.len() as int,
            hops_moves(grid, origin, white, offsets, count),
        ),
        hops_defends(mirrored(grid), flipped(grid.len() as int, origin), !white, image, count) == flipped_all(
            grid.len() as int,
            hops_defends(grid, origin, white, offsets, count),
        ),
        hops_check(mirrored(grid), flipped(grid.len() as int, origin), !white, image, count) == hops_check(
            grid,
            origin,
            white,
            offsets,
            count,
        ),
    decreases count,
{
    let rows = grid.len() as int;
    let there = flipped(rows, origin);
    if count == 0 {
        assert(flipped_all(rows, Seq::<Position>::empty()) =~= Seq::<Position>::empty());
    } else {
        let before = (count - 1) as nat;
        lemma_mirrored_hops(grid, origin, white, offsets, image, before);
        let offset = offsets[count - 1];
        assert(image[count - 1].0 as int == -(offset.0 as int) && image[count - 1].1 == offset.1);
        assert(there.row == rows - 1 - origin.row && there.column == origin.column);
        lemma_mirrored_hop(grid, origin.row + offset.0, origin.column + offset.1, white);
        lemma_flipped_join(
            rows,
            hops_moves(grid, origin, white, offsets, before),
            hop_moves(grid, origin.row + offset.0, origin.column + offset.1, white),
        );
        lemma_flipped_join(
            rows,
            hops_defends(grid, origin, white, offsets, before),
            hop_defends(grid, origin.row + offset.0, origin.column + offset.1, white),
        );
    }
}

/// The move data of a piece that hops is the mirror image of that of a piece of the other
/// colour that hops from the mirrored square by the mirrored offsets.
pub proof fn lemma_mirrored_hop_data(
    grid: Seq<Seq<Option<Piece>>>,
    origin: Position,
    white: bool,
    offsets: Seq<(i8, i8)>,
    image: Seq<(i8, i8)>,
)
    requires
        is_board(grid),
        on_board(grid, origin),
        are_mirrored(offsets, image),
    ensures
        hop_data(mirrored(grid), flipped(grid.len() as int, origin), !white, image) == flipped_data(
            grid.len() as int,
            hop_data(grid, origin, white, offsets),
        ),
{
    lemma_mirrored_hops(grid, origin, white, offsets, image, offsets.len());
    assert(flipped_all(grid.len() as int, Seq::<Position>::empty()) =~= Seq::<Position>::empty());
}

/// The move data of a knight is the mirror image of that of the knight of the other colour on
/// the mirrored square of the mirrored grid.
pub proof fn lemma_mirrored_knight(grid: Seq<Seq<Option<Piece>>>, origin: Position)
    requires
        is_board(grid),
        on_board(grid, origin),
        piece_on(grid, origin) is Some,
    ensures
        knight_data(mirrored(grid), flipped(grid.len() as int, origin)) == flipped_data(
            grid.len() as int,
            knight_data(grid, origin),
        ),
{
    let white = white_on(grid, origin);
    lemma_mirrored_piece(grid, origin);
    assert(are_mirrored(knight_offsets(white), knight_offsets(!white)));
    lemma_mirrored_hop_data(grid, origin, white, knight_offsets(white), knight_offsets(!white));
}

/// The move data of a king is the mirror image of that of the king of the other colour on the
/// mirrored square of the mirrored grid.
pub proof fn lemma_mirrored_king(grid: Seq<Seq<Option<Piece>>>, origin: Position)
    requires
        is_board(grid),
        on_board(grid, origin),
        piece_on(grid, origin) is Some,
    ensures
        king_data(mirrored(grid), flipped(grid.len() as int, origin)) == flipped_data(
            grid.len() as int,
            king_data(grid, origin),
        ),
{
    let white = white_on(grid, origin);
    lemma_mirrored_piece(grid, origin);
    assert(are_mirrored(king_offsets(white), king_offsets(!white)));
    lemma_mirrored_hop_data(grid, origin, white, king_offsets(white), king_offsets(!white));
}

/// The mirror image of a move: its squares mirrored.
pub open spec fn flipped_move(rows: int, piece_move: PieceMoveView) -> PieceMoveView {
    PieceMoveView {
        start: flipped(rows, piece_move.start),
        end: flipped(rows, piece_move.end),
        promotion: piece_move.promotion,
    }
}

/// The mirror image of an optional move.
pub open spec fn flipped_last(rows: int, last_move: Option<PieceMoveView>) -> Option<PieceMoveView> {
    match last_move {
        Some(piece_move) => Some(flipped_move(rows, piece_move)),
        None => None,
    }
}

/// Whether the squares of an optional move are squares of the board.
pub open spec fn move_on_board(grid: Seq<Seq<Option<Piece>>>, last_move: Option<PieceMoveView>) -> bool {
    last_move matches Some(piece_move) ==> on_board(grid, piece_move.start) && on_board(grid, piece_move.end)
}

/// The square a pawn can advance to or capture on is the mirror image of the square that a
/// pawn of the other colour can advance to or capture on at the mirror image of the cell.
pub proof fn lemma_mirrored_pawn_square(grid: Seq<Seq<Option<Piece>>>, row: int, column: int, white: bool)
    requires
        is_board(grid),
    ensures
        advance_moves(mirrored(grid), grid.len() - 1 - row, column) == flipped_all(
            grid.len() as int,
            advance_moves(grid, row, column),
        ),
        capture_moves(mirrored(grid), grid.len() - 1 - row, column, !white) == flipped_all(
            grid.len() as int,
            capture_moves(grid, row, column, white),
        ),
{
    let rows = grid.len() as int;
    lemma_mirrored_cells(grid);
    assert(piece_at(mirrored(grid), rows - 1 - row, column) == swapped_cell(piece_at(grid, row, column)));
    assert(in_bounds(mirrored(grid), rows - 1 - row, column) == in_bounds(grid, row, column));
    assert(empty_at(mirrored(grid), rows - 1 - row, column) == empty_at(grid, row, column));
    if in_bounds(grid, row, column) {
        assert(grid[row].len() <= usize::MAX);
        assert(square(rows - 1 - row, column) == flipped(rows, square(row, column)));
    }
    assert(advance_moves(mirrored(grid), rows - 1 - row, column) =~= flipped_all(
        rows,
        advance_moves(grid, row, column),
    ));
    assert(capture_moves(mirrored(grid), rows - 1 - row, column, !white) =~= flipped_all(
        rows,
        capture_moves(grid, row, column, white),
    ));
}

/// The square to which a pawn captures in passing is the mirror image of the square to which
/// the pawn of the other colour does on the mirrored grid after the mirrored move.
pub proof fn lemma_mirrored_en_passant(
    grid: Seq<Seq<Option<Piece>>>,
    origin: Position,
    white: bool,
    last_move: Option<PieceMoveView>,
)
    requires
        is_board(grid),
        on_board(grid, origin),
        move_on_board(grid, last_move),
    ensures
        optional_square(
            en_passant_target(
                mirrored(grid),
                flipped(grid.len() as int, origin),
                !white,
                flipped_last(grid.len() as int, last_move),
            ),
        ) == flipped_all(grid.len() as int, optional_square(en_passant_target(grid, origin, white, last_move))),
{
    let rows = grid.len() as int;
    let image = mirrored(grid);
    lemma_mirrored_cells(grid);
    match last_move {
        Some(last) => {
            lemma_mirrored_piece(grid, last.end);
            let row = origin.row + forward(white);
            let column = last.end.column as int;
            assert(in_bounds(image, rows - 1 - row, column) == in_bounds(grid, row, column));
            if in_bounds(grid, row, column) {
                assert(grid[row].len() <= usize::MAX);
                assert(square(rows - 1 - row, column) == flipped(rows, square(row, column)));
            }
            assert(piece_on(grid, last.end) == Some(Piece::Pawn(!white)) <==> piece_on(
                image,
                flipped(rows, last.end),
            ) == Some(Piece::Pawn(white)));
        },
        None => {},
    }
    assert(optional_square(
        en_passant_target(image, flipped(rows, origin), !white, flipped_last(rows, last_move)),
    ) =~= flipped_all(rows, optional_square(en_passant_target(grid, origin, white, last_move))));
}

/// The squares a pawn can advance to are the mirror images of those that the pawn of the
/// other colour can advance to from the mirrored square of the mirrored grid.
pub proof fn lemma_mirrored_pawn_advances(grid: Seq<Seq<Option<Piece>>>, origin: Position, white: bool)
    requires
        is_board(grid),
        on_board(grid, origin),
    ensures
        pawn_advances(mirrored(grid), flipped(grid.len() as int, origin), !white) == flipped_all(
            grid.len() as int,
            pawn_advances(grid, origin, white),
        ),
{
    let rows = grid.len() as int;
    let image = mirrored(grid);
    let there = flipped(rows, origin);
    lemma_mirrored_cells(grid);
    let row = origin.row + forward(white);
    let column = origin.column as int;
    assert(there.row + forward(!white) == rows - 1 - row);
    assert(there.row + 2 * forward(!white) == rows - 1 - (origin.row + 2 * forward(white)));
    assert((there.row == pawn_start_row(image, !white)) == (origin.row == pawn_start_row(grid, white)));
    assert(empty_at(image, rows - 1 - row, column) == empty_at(grid, row, column));
    lemma_mirrored_pawn_square(grid, row, column, white);
    lemma_mirrored_pawn_square(grid, origin.row + 2 * forward(white), column, white);
    lemma_flipped_join(
        rows,
        advance_moves(grid, row, column),
        advance_moves(grid, origin.row + 2 * forward(white), column),
    );
}

/// The moves of a pawn are the mirror images of those of the pawn of the other colour on the
/// mirrored square of the mirrored grid, after the mirrored move.
pub proof fn lemma_mirrored_pawn_moves(
    grid: Seq<Seq<Option<Piece>>>,
    origin: Position,
    last_move: Option<PieceMoveView>,
)
    requires
        is_board(grid),
        on_board(grid, origin),
        piece_on(grid, origin) is Some,
        move_on_board(grid, last_move),
    ensures
        pawn_data(
            mirrored(grid),
            flipped(grid.len() as int, origin),
            flipped_last(grid.len() as int, last_move),
        ).valid_moves == flipped_all(grid.len() as int, pawn_data(grid, origin, last_move).valid_moves),
{
    let rows = grid.len() as int;
    let white = white_on(grid, origin);
    let there = flipped(rows, origin);
    lemma_mirrored_piece(grid, origin);
    let row = origin.row + forward(white);
    let column = origin.column as int;
    assert(there.row + forward(!white) == rows - 1 - row);
    lemma_mirrored_pawn_advances(grid, origin, white);
    lemma_mirrored_pawn_square(grid, row, column - 1, white);
    lemma_mirrored_pawn_square(grid, row, column + 1, white);
    lemma_mirrored_en_passant(grid, origin, white, last_move);
    let advances = pawn_advances(grid, origin, white);
    let left = capture_moves(grid, row, column - 1, white);
    let right = capture_moves(grid, row, column + 1, white);
    let passing = optional_square(en_passant_target(grid, origin, white, last_move));
    lemma_flipped_join(rows, advances, left);
    lemma_flipped_join(rows, advances + left, right);
    lemma_flipped_join(rows, advances + left + right, passing);
}

/// The move data of a pawn is the mirror image of that of the pawn of the other colour on
/// the mirrored square of the mirrored grid, after the mirrored move.
pub proof fn lemma_mirrored_pawn(grid: Seq<Seq<Option<Piece>>>, origin: Position, last_move: Option<PieceMoveView>)
    requires
        is_board(grid),
        on_board(grid, origin),
        piece_on(grid, origin) is Some,
        move_on_board(grid, last_move),
    ensures
        pawn_data(mirrored(grid), flipped(grid.len() as int, origin), flipped_last(grid.len() as int, last_move))
            == flipped_data(grid.len() as int, pawn_data(grid, origin, last_move)),
{
    let rows = grid.len() as int;
    let white = white_on(grid, origin);
    let there = flipped(rows, origin);
    lemma_mirrored_piece(grid, origin);
    let row = origin.row + forward(white);
    let column = origin.column as int;
    assert(there.row + forward(!white) == rows - 1 - row);
    lemma_mirrored_pawn_moves(grid, origin, last_move);
    lemma_mirrored_hop(grid, row, column - 1, white);
    lemma_mirrored_hop(grid, row, column + 1, white);
    lemma_flipped_join(rows, hop_moves(grid, row, column - 1, white), hop_moves(grid, row, column + 1, white));
    lemma_flipped_join(rows, hop_defends(grid, row, column - 1, white), hop_defends(grid, row, column + 1, white));
    assert(flipped_all(rows, Seq::<Position>::empty()) =~= Seq::<Position>::empty());
}

/// The move data of a piece is the mirror image of that of the piece of the other colour on
/// the mirrored square of the mirrored grid, after the mirrored move.
pub proof fn lemma_mirrored_move_data(
    grid: Seq<Seq<Option<Piece>>>,
    position: Position,
    last_move: Option<PieceMoveView>,
)
    requires
        is_board(grid),
        on_board(grid, position),
        piece_on(grid, position) is Some,
        move_on_board(grid, last_move),
    ensures
        move_data_of(
            mirrored(grid),
            flipped(grid.len() as int, position),
            flipped_last(grid.len() as int, last_move),
        ) == flipped_data(grid.len() as int, move_data_of(grid, position, last_move)),
{
    lemma_mirrored_piece(grid, position);
    match piece_on(grid, position) {
        Some(Piece::Bishop(_)) => lemma_mirrored_bishop(grid, position),
        Some(Piece::Knight(_)) => lemma_mirrored_knight(grid, position),
        Some(Piece::Pawn(_)) => lemma_mirrored_pawn(grid, position, last_move),
        Some(Piece::Queen(_)) => lemma_mirrored_queen(grid, position),
        Some(Piece::Rook(_)) => lemma_mirrored_rook(grid, position),
        Some(Piece::King(_)) => lemma_mirrored_king(grid, position),
        None => {},
    }
}

/// The mirror images of the move data of a list.
pub open spec fn flipped_datas(rows: int, list: Seq<MoveDataView>) -> Seq<MoveDataView> {
    Seq::new(list.len(), |i: int| flipped_data(rows, list[i]))
}

/// The mirror image of a scan.
pub open spec fn flipped_scan(rows: int, scan: ScanView) -> ScanView {
    ScanView {
        opposing_king: match scan.opposing_king {
            Some(king) => Some(flipped_data(rows, king)),
            None => None,
        },
        attacked_positions: flipped_all(rows, scan.attacked_positions),
        opposing_move_data: flipped_datas(rows, scan.opposing_move_data),
        checking_pieces: flipped_datas(rows, scan.checking_pieces),
        defended_positions: flipped_all(rows, scan.defended_positions),
        pinned_positions: flipped_all(rows, scan.pinned_positions),
    }
}

/// Looking at a square and then mirroring the scan gives what looking at the mirrored square
/// of the mirrored grid gives, for the other side.
pub proof fn lemma_mirrored_scan_cell(
    before: ScanView,
    grid: Seq<Seq<Option<Piece>>>,
    white_turn: bool,
    last_move: Option<PieceMoveView>,
    position: Position,
)
    requires
        is_board(grid),
        on_board(grid, position),
        move_on_board(grid, last_move),
    ensures
        scan_cell(
            flipped_scan(grid.len() as int, before),
            mirrored(grid),
            !white_turn,
            flipped_last(grid.len() as int, last_move),
            flipped(grid.len() as int, position),
        ) == flipped_scan(grid.len() as int, scan_cell(before, grid, white_turn, last_move, position)),
{
    let rows = grid.len() as int;
    lemma_mirrored_piece(grid, position);
    let here = scan_cell(before, grid, white_turn, last_move, position);
    let there = scan_cell(
        flipped_scan(rows, before),
        mirrored(grid),
        !white_turn,
        flipped_last(rows, last_move),
        flipped(rows, position),
    );
    if piece_on(grid, position) is Some {
        lemma_mirrored_move_data(grid, position, last_move);
        let data = move_data_of(grid, position, last_move);
        lemma_flipped_join(rows, before.attacked_positions, data.attacks);
        lemma_flipped_join(rows, before.defended_positions, data.defends);
        lemma_flipped_join(rows, before.pinned_positions, data.pins);
        assert(flipped_datas(rows, before.opposing_move_data.push(data)) =~= flipped_datas(
            rows,
            before.opposing_move_data,
        ).push(flipped_data(rows, data)));
        assert(flipped_datas(rows, before.checking_pieces.push(data)) =~= flipped_datas(
            rows,
            before.checking_pieces,
        ).push(flipped_data(rows, data)));
    }
    assert(there.opposing_move_data == flipped_scan(rows, here).opposing_move_data);
    assert(there.checking_pieces == flipped_scan(rows, here).checking_pieces);
}

/// Looking at the first squares of a row and then mirroring the scan gives what looking at
/// the first squares of the mirrored row gives, for the other side.
pub proof fn lemma_mirrored_row_scan(
    before: ScanView,
    grid: Seq<Seq<Option<Piece>>>,
    white_turn: bool,
    last_move: Option<PieceMoveView>,
    row: int,
    count: nat,
)
    requires
        is_board(grid),
        move_on_board(grid, last_move),
        0 <= row < grid.len(),
        count <= grid[row].len(),
    ensures
        row_scan(
            flipped_scan(grid.len() as int, before),
            mirrored(grid),
            !white_turn,
            flipped_last(grid.len() as int, last_move),
            grid.len() - 1 - row,
            count,
        ) == flipped_scan(grid.len() as int, row_scan(before, grid, white_turn, last_move, row, count)),
    decreases count,
{
    if count > 0 {
        let rows = grid.len() as int;
        lemma_mirrored_row_scan(before, grid, white_turn, last_move, row, (count - 1) as nat);
        assert(grid[row].len() <= usize::MAX);
        assert(square(rows - 1 - row, count - 1) == flipped(rows, square(row, count - 1)));
        lemma_mirrored_scan_cell(
            row_scan(before, grid, white_turn, last_move, row, (count - 1) as nat),
            grid,
            white_turn,
            last_move,
            square(row, count - 1),
        );
    }
}

/// The scan of the mirrored grid for the other side is the mirror image of the scan of the
/// grid.
pub proof fn lemma_mirrored_board_scan(
    grid: Seq<Seq<Option<Piece>>>,
    white_turn: bool,
    last_move: Option<PieceMoveView>,
    count: nat,
)
    requires
        is_board(grid),
        move_on_board(grid, last_move),
        count <= grid.len(),
    ensures
        board_scan(mirrored(grid), !white_turn, flipped_last(grid.len() as int, last_move), count) == flipped_scan(
            grid.len() as int,
            board_scan(grid, white_turn, last_move, count),
        ),
    decreases count,
{
    let rows = grid.len() as int;
    if count == 0 {
        assert(flipped_all(rows, Seq::<Position>::empty()) =~= Seq::<Position>::empty());
        assert(flipped_datas(rows, Seq::<MoveDataView>::empty()) =~= Seq::<MoveDataView>::empty());
    } else {
        lemma_mirrored_board_scan(grid, white_turn, last_move, (count - 1) as nat);
        let row = scan_row_at(grid, white_turn, count - 1);
        assert(scan_row_at(mirrored(grid), !white_turn, count - 1) == rows - 1 - row);
        assert(mirrored(grid)[rows - 1 - row].len() == grid[row].len());
        lemma_mirrored_row_scan(
            board_scan(grid, white_turn, last_move, (count - 1) as nat),
            grid,
            white_turn,
            last_move,
            row,
            grid[row].len(),
        );
    }
}

/// A move ends a check just when its mirror image ends the mirrored check.
pub proof fn lemma_mirrored_resolves(rows: int, checker: MoveDataView, target: Position)
    requires
        rows <= usize::MAX,
    ensures
        resolves_check(flipped_data(rows, checker), flipped(rows, target)) == resolves_check(checker, target),
{
    lemma_flipped_twice(rows, target);
    lemma_flipped_twice(rows, checker.position);
    match checker.checking_path {
        Some(path) => {
            lemma_flipped_contains(rows, path, target);
        },
        None => {},
    }
}

/// The moves that end a check are the mirror images of the mirrored moves that end the
/// mirrored check.
pub proof fn lemma_mirrored_resolving_moves(rows: int, moves: Seq<Position>, checker: MoveDataView)
    requires
        rows <= usize::MAX,
    ensures
        resolving_moves(flipped_all(rows, moves), flipped_data(rows, checker)) == flipped_all(
            rows,
            resolving_moves(moves, checker),
        ),
    decreases moves.len(),
{
    if moves.len() == 0 {
        assert(flipped_all(rows, Seq::<Position>::empty()) =~= Seq::<Position>::empty());
        assert(flipped_all(rows, moves) =~= Seq::<Position>::empty());
    } else {
        lemma_mirrored_resolving_moves(rows, moves.drop_last(), checker);
        lemma_mirrored_resolves(rows, checker, moves.last());
        assert(flipped_all(rows, moves).drop_last() =~= flipped_all(rows, moves.drop_last()));
        assert(flipped_all(rows, moves).last() == flipped(rows, moves.last()));
        let before = resolving_moves(moves.drop_last(), checker);
        assert(flipped_all(rows, before.push(moves.last())) =~= flipped_all(rows, before).push(
            flipped(rows, moves.last()),
        ));
    }
}

/// The moves left to a piece are the mirror images of those left to its mirror image.
pub proof fn lemma_mirrored_restricted_moves(
    rows: int,
    data: MoveDataView,
    pinned: Seq<Position>,
    checkers: Seq<MoveDataView>,
)
    requires
        rows <= usize::MAX,
    ensures
        restricted_moves(flipped_data(rows, data), flipped_all(rows, pinned), flipped_datas(rows, checkers))
            == flipped_all(rows, restricted_moves(data, pinned, checkers)),
{
    lemma_flipped_contains(rows, pinned, data.position);
    assert(flipped_all(rows, Seq::<Position>::empty()) =~= Seq::<Position>::empty());
    if checkers.len() == 1 {
        lemma_mirrored_resolving_moves(rows, data.valid_moves, checkers[0]);
    }
}

/// The safe moves are the mirror images of the safe ones among the mirrored moves.
pub proof fn lemma_mirrored_safe_moves(
    rows: int,
    moves: Seq<Position>,
    attacked: Seq<Position>,
    defended: Seq<Position>,
)
    requires
        rows <= usize::MAX,
    ensures
        safe_moves(flipped_all(rows, moves), flipped_all(rows, attacked), flipped_all(rows, defended))
            == flipped_all(rows, safe_moves(moves, attacked, defended)),
    decreases moves.len(),
{
    if moves.len() == 0 {
        assert(flipped_all(rows, Seq::<Position>::empty()) =~= Seq::<Position>::empty());
        assert(flipped_all(rows, moves) =~= Seq::<Position>::empty());
    } else {
        lemma_mirrored_safe_moves(rows, moves.drop_last(), attacked, defended);
        lemma_flipped_contains(rows, attacked, moves.last());
        lemma_flipped_contains(rows, defended, moves.last());
        assert(flipped_all(rows, moves).drop_last() =~= flipped_all(rows, moves.drop_last()));
        assert(flipped_all(rows, moves).last() == flipped(rows, moves.last()));
        let before = safe_moves(moves.drop_last(), attacked, defended);
        assert(flipped_all(rows, before.push(moves.last())) =~= flipped_all(rows, before).push(
            flipped(rows, moves.last()),
        ));
    }
}

/// A stretch of a row is free for castling just when the same stretch of the mirrored row is.
pub proof fn lemma_mirrored_castle_path(
    grid: Seq<Seq<Option<Piece>>>,
    row: int,
    from: int,
    to: int,
    attacked: Seq<Position>,
)
    requires
        is_board(grid),
        0 <= row < grid.len(),
    ensures
        castle_path_free(mirrored(grid), grid.len() - 1 - row, from, to, flipped_all(grid.len() as int, attacked))
            == castle_path_free(grid, row, from, to, attacked),
{
    let rows = grid.len() as int;
    let image = mirrored(grid);
    let there = flipped_all(rows, attacked);
    lemma_mirrored_cells(grid);
    assert forall|column: int|
        castle_square_free(image, rows - 1 - row, column, there) == castle_square_free(
            grid,
            row,
            column,
            attacked,
        ) by {
        assert(empty_at(image, rows - 1 - row, column) == empty_at(grid, row, column));
        if empty_at(grid, row, column) {
            assert(grid[row].len() <= usize::MAX);
            assert(square(rows - 1 - row, column) == flipped(rows, square(row, column)));
            lemma_flipped_contains(rows, attacked, square(row, column));
        }
    }
    if castle_path_free(grid, row, from, to, attacked) {
        assert forall|column: int| from <= column < to implies #[trigger] castle_square_free(
            image,
            rows - 1 - row,
            column,
            there,
        ) by {
            assert(castle_square_free(grid, row, column, attacked));
        }
    }
    if castle_path_free(image, rows - 1 - row, from, to, there) {
        assert forall|column: int| from <= column < to implies #[trigger] castle_square_free(
            grid,
            row,
            column,
            attacked,
        ) by {
            assert(castle_square_free(image, rows - 1 - row, column, there));
        }
    }
}

/// The squares a king castles to are the mirror images of those the king of the other colour
/// castles to on the mirrored grid.
pub proof fn lemma_mirrored_castle_moves(
    grid: Seq<Seq<Option<Piece>>>,
    origin: Position,
    attacked: Seq<Position>,
    long_castle: bool,
    short_castle: bool,
)
    requires
        is_board(grid),
        on_board(grid, origin),
    ensures
        castle_moves(
            mirrored(grid),
            flipped(grid.len() as int, origin),
            flipped_all(grid.len() as int, attacked),
            long_castle,
            short_castle,
        ) == flipped_all(grid.len() as int, castle_moves(grid, origin, attacked, long_castle, short_castle)),
{
    let rows = grid.len() as int;
    let image = mirrored(grid);
    let there = flipped(rows, origin);
    let row = origin.row as int;
    lemma_mirrored_cells(grid);
    lemma_mirrored_castle_path(grid, row, 2, origin.column as int, attacked);
    lemma_mirrored_castle_path(grid, row, origin.column + 1, 7, attacked);
    lemma_flipped_contains(rows, attacked, origin);
    assert(piece_at(image, rows - 1 - row, 1) == swapped_cell(piece_at(grid, row, 1)));
    assert(in_bounds(image, rows - 1 - row, origin.column - 2) == in_bounds(grid, row, origin.column - 2));
    assert(in_bounds(image, rows - 1 - row, origin.column + 2) == in_bounds(grid, row, origin.column + 2));
    assert(grid[row].len() <= usize::MAX);
    if in_bounds(grid, row, origin.column - 2) {
        assert(square(rows - 1 - row, origin.column - 2) == flipped(rows, square(row, origin.column - 2)));
    }
    if in_bounds(grid, row, origin.column + 2) {
        assert(square(rows - 1 - row, origin.column + 2) == flipped(rows, square(row, origin.column + 2)));
    }
    assert(long_castle_valid(image, there, flipped_all(rows, attacked)) == long_castle_valid(grid, origin, attacked));
    assert(short_castle_valid(image, there, flipped_all(rows, attacked)) == short_castle_valid(
        grid,
        origin,
        attacked,
    ));
    assert(castle_moves(image, there, flipped_all(rows, attacked), long_castle, short_castle) =~= flipped_all(
        rows,
        castle_moves(grid, origin, attacked, long_castle, short_castle),
    ));
}

/// The mirror image of a map of moves: each entry under the mirror image of its square, with
/// the mirror images of its moves.
pub open spec fn flipped_map(rows: int, moves: Map<Position, Seq<Position>>) -> Map<Position, Seq<Position>> {
    Map::new(
        |origin: Position| moves.contains_key(flipped(rows, origin)),
        |origin: Position| flipped_all(rows, moves[flipped(rows, origin)]),
    )
}

/// Adding an entry and then mirroring the map gives what adding the mirrored entry to the
/// mirrored map gives.
pub proof fn lemma_flipped_insert(
    rows: int,
    moves: Map<Position, Seq<Position>>,
    origin: Position,
    targets: Seq<Position>,
)
    requires
        rows <= usize::MAX,
    ensures
        flipped_map(rows, moves.insert(origin, targets)) == flipped_map(rows, moves).insert(
            flipped(rows, origin),
            flipped_all(rows, targets),
        ),
{
    let here = flipped_map(rows, moves.insert(origin, targets));
    let there = flipped_map(rows, moves).insert(flipped(rows, origin), flipped_all(rows, targets));
    lemma_flipped_twice(rows, origin);
    assert forall|key: Position| here.contains_key(key) == there.contains_key(key) && (here.contains_key(key)
        ==> here[key] == there[key]) by {
        lemma_flipped_twice(rows, key);
    }
    assert(here =~= there);
}

/// The entries of the opponent's pieces in the legal moves are the mirror images of those of
/// the mirrored pieces, and there is a piece with a move left just when there is a mirrored one.
pub proof fn lemma_mirrored_opposing_entries(
    rows: int,
    opposing: Seq<MoveDataView>,
    pinned: Seq<Position>,
    checkers: Seq<MoveDataView>,
    count: nat,
)
    requires
        rows <= usize::MAX,
        count <= opposing.len(),
    ensures
        opposing_entries(
            flipped_datas(rows, opposing),
            flipped_all(rows, pinned),
            flipped_datas(rows, checkers),
            count,
        ) == flipped_map(rows, opposing_entries(opposing, pinned, checkers, count)),
        any_restricted_move(
            flipped_datas(rows, opposing),
            flipped_all(rows, pinned),
            flipped_datas(rows, checkers),
            count,
        ) == any_restricted_move(opposing, pinned, checkers, count),
    decreases count,
{
    let image = flipped_datas(rows, opposing);
    let there_pinned = flipped_all(rows, pinned);
    let there_checkers = flipped_datas(rows, checkers);
    if count == 0 {
        assert(flipped_map(rows, Map::<Position, Seq<Position>>::empty()) =~= Map::<Position, Seq<Position>>::empty());
    } else {
        lemma_mirrored_opposing_entries(rows, opposing, pinned, checkers, (count - 1) as nat);
        let data = opposing[count - 1];
        lemma_mirrored_restricted_moves(rows, data, pinned, checkers);
        let before = opposing_entries(opposing, pinned, checkers, (count - 1) as nat);
        lemma_flipped_insert(rows, before, data.position, restricted_moves(data, pinned, checkers));
    }
    assert forall|i: int| 0 <= i < count implies (#[trigger] restricted_moves(
        image[i],
        there_pinned,
        there_checkers,
    )).len() == restricted_moves(opposing[i], pinned, checkers).len() by {
        lemma_mirrored_restricted_moves(rows, opposing[i], pinned, checkers);
    }
    if any_restricted_move(opposing, pinned, checkers, count) {
        let i = choose|i: int| 0 <= i < count && (#[trigger] restricted_moves(opposing[i], pinned, checkers)).len() > 0;
        assert(restricted_moves(image[i], there_pinned, there_checkers).len() > 0);
    }
    if any_restricted_move(image, there_pinned, there_checkers, count) {
        let i = choose|i: int|
            0 <= i < count && (#[trigger] restricted_moves(image[i], there_pinned, there_checkers)).len() > 0;
        assert(restricted_moves(opposing[i], pinned, checkers).len() > 0);
    }
}

/// The state of play with the sides exchanged.
pub open spec fn mirrored_state(game_state: GameState) -> GameState {
    match game_state {
        GameState::WhiteWin => GameState::BlackWin,
        GameState::BlackWin => GameState::WhiteWin,
        other => other,
    }
}

/// The mirror image of an evaluation: the sides exchanged and the legal moves mirrored.
pub open spec fn mirrored_evaluation(rows: int, evaluation: EvaluationView) -> EvaluationView {
    EvaluationView {
        game_state: mirrored_state(evaluation.game_state),
        in_check: evaluation.in_check,
        valid_moves: flipped_map(rows, evaluation.valid_moves),
    }
}

/// A position and its mirror image are judged alike. The evaluation of the mirror image of a
/// board, with the colours exchanged and the rows turned over, for the other side and after
/// the mirrored move, is the mirror image of the evaluation of the board: the same check, the
/// mirrored legal moves and the same state of play with the sides exchanged. So a checkmate
/// stays a checkmate, won by the other colour.
pub proof fn lemma_mirrored_position_is_judged_alike(
    grid: Seq<Seq<Option<Piece>>>,
    white_turn: bool,
    long_castle: bool,
    short_castle: bool,
    last_move: Option<PieceMoveView>,
)
    requires
        is_board(grid),
        move_on_board(grid, last_move),
    ensures
        evaluation_of(
            mirrored(grid),
            !white_turn,
            long_castle,
            short_castle,
            flipped_last(grid.len() as int, last_move),
        ) == mirrored_evaluation(
            grid.len() as int,
            evaluation_of(grid, white_turn, long_castle, short_castle, last_move),
        ),
{
    let rows = grid.len() as int;
    let image = mirrored(grid);
    let scan = board_scan(grid, white_turn, last_move, grid.len());
    lemma_mirrored_cells(grid);
    lemma_mirrored_board_scan(grid, white_turn, last_move, grid.len());
    lemma_board_scan_is_sound(grid, white_turn, last_move, grid.len());
    let here = evaluation_of(grid, white_turn, long_castle, short_castle, last_move);
    let there = evaluation_of(image, !white_turn, long_castle, short_castle, flipped_last(rows, last_move));
    assert(there == scan_evaluation(image, flipped_scan(rows, scan), !white_turn, long_castle, short_castle));
    match scan.opposing_king {
        None => {
            assert(flipped_map(rows, Map::<Position, Seq<Position>>::empty()) =~= Map::<
                Position,
                Seq<Position>,
            >::empty());
        },
        Some(king) => {
            if scan.checking_pieces.len() > 2 {
                assert(flipped_map(rows, Map::<Position, Seq<Position>>::empty()) =~= Map::<
                    Position,
                    Seq<Position>,
                >::empty());
            } else {
                assert(is_opposing_king(grid, white_turn, last_move, king));
                lemma_mirrored_safe_moves(rows, king.valid_moves, scan.attacked_positions, scan.defended_positions);
                lemma_mirrored_castle_moves(grid, king.position, scan.attacked_positions, long_castle, short_castle);
                lemma_flipped_join(
                    rows,
                    safe_moves(king.valid_moves, scan.attacked_positions, scan.defended_positions),
                    castle_moves(grid, king.position, scan.attacked_positions, long_castle, short_castle),
                );
                lemma_mirrored_opposing_entries(
                    rows,
                    scan.opposing_move_data,
                    scan.pinned_positions,
                    scan.checking_pieces,
                    scan.opposing_move_data.len(),
                );
                let for_king = king_moves(
                    grid,
                    king,
                    scan.attacked_positions,
                    scan.defended_positions,
                    long_castle,
                    short_castle,
                );
                lemma_flipped_insert(
                    rows,
                    opposing_entries(
                        scan.opposing_move_data,
                        scan.pinned_positions,
                        scan.checking_pieces,
                        scan.opposing_move_data.len(),
                    ),
                    king.position,
                    for_king,
                );
            }
        },
    }
}

/// The state of play in which the given side has given checkmate.
pub open spec fn won_by(white: bool) -> GameState {
    if white {
        GameState::WhiteWin
    } else {
        GameState::BlackWin
    }
}

/// A checkmate stays a checkmate in the mirror: where a side has given checkmate on a board,
/// the other side has given checkmate on the mirror image of the board.
pub proof fn lemma_mirrored_checkmate(
    board: Vec<Vec<Option<Piece>>>,
    white_turn: bool,
    long_castle: bool,
    short_castle: bool,
    last_move: Option<PieceMoveView>,
)
    requires
        move_on_board(grid_view(&board), last_move),
        evaluation_of(grid_view(&board), white_turn, long_castle, short_castle, last_move).game_state == won_by(
            white_turn,
        ),
    ensures
        evaluation_of(
            mirrored(grid_view(&board)),
            !white_turn,
            long_castle,
            short_castle,
            flipped_last(board@.len() as int, last_move),
        ).game_state == won_by(!white_turn),
{
    lemma_grid_view_is_board(&board);
    lemma_mirrored_position_is_judged_alike(grid_view(&board), white_turn, long_castle, short_castle, last_move);
}

} // verus!
