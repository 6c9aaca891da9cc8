use vstd::prelude::*;
use crate::board::{empty_at, grid_view, in_bounds, piece_at};
use crate::board::{is_board, on_board, piece_on};
use crate::move_data::{path_view, MoveData, MoveDataView};
use crate::pieces::piece::Piece;
use crate::position::{append_positions, square, Position};

verus! {

/// Whether the pair of steps is one of the eight compass directions.
pub open spec fn is_direction(d_row: int, d_column: int) -> bool {
    -1 <= d_row <= 1 && -1 <= d_column <= 1 && (d_row != 0 || d_column != 0)
}

/// The distance covered by `count` steps of `step`, for a step of -1, 0 or 1.
pub open spec fn steps(step: int, count: int) -> int {
    if step == 1 {
        count
    } else if step == -1 {
        -count
    } else {
        0
    }
}

/// The square reached from the given cell after `count` steps in a direction.
pub open spec fn ray_square(row: int, column: int, d_row: int, d_column: int, count: int) -> Position {
    square(row + steps(d_row, count), column + steps(d_column, count))
}

/// A bound on the number of cells that lie beyond the given one in a direction.
pub open spec fn room(grid: Seq<Seq<Option<Piece>>>, row: int, column: int, d_row: int, d_column: int) -> int {
    if d_row == 1 {
        grid.len() - row
    } else if d_row == -1 {
        row + 1
    } else if d_column == 1 {
        if 0 <= row < grid.len() {
            grid[row].len() - column
        } else {
            0
        }
    } else {
        column + 1
    }
}

/// The number of empty cells that follow the given one in a direction, up to the first piece
/// or the edge of the grid.
pub open spec fn clear_run(grid: Seq<Seq<Option<Piece>>>, row: int, column: int, d_row: int, d_column: int) -> nat
    decreases room(grid, row, column, d_row, d_column),
{
    if is_direction(d_row, d_column) && empty_at(grid, row + d_row, column + d_column) {
        1 + clear_run(grid, row + d_row, column + d_column, d_row, d_column)
    } else {
        0
    }
}

/// The first `count` squares that follow the given cell in a direction, nearest first.
pub open spec fn run_squares(row: int, column: int, d_row: int, d_column: int, count: nat) -> Seq<Position> {
    Seq::new(count, |i: int| ray_square(row, column, d_row, d_column, i + 1))
}

/// The empty squares that follow the given cell in a direction, up to the first piece or the
/// edge of the grid.
pub open spec fn open_squares(grid: Seq<Seq<Option<Piece>>>, row: int, column: int, d_row: int, d_column: int) -> Seq<
    Position,
> {
    run_squares(row, column, d_row, d_column, clear_run(grid, row, column, d_row, d_column))
}

/// The square just beyond the empty squares that follow the given cell in a direction.
pub open spec fn first_piece_square(
    grid: Seq<Seq<Option<Piece>>>,
    row: int,
    column: int,
    d_row: int,
    d_column: int,
) -> Position {
    ray_square(row, column, d_row, d_column, clear_run(grid, row, column, d_row, d_column) as int + 1)
}

/// The first piece met when leaving the given cell in a direction; none where the edge of the
/// grid comes first.
pub open spec fn first_piece(grid: Seq<Seq<Option<Piece>>>, row: int, column: int, d_row: int, d_column: int) -> Option<
    Piece,
> {
    let count = clear_run(grid, row, column, d_row, d_column) as int + 1;
    piece_at(grid, row + steps(d_row, count), column + steps(d_column, count))
}

/// Whether the cell holds a piece of the side opposed to `white`.
pub open spec fn is_enemy(cell: Option<Piece>, white: bool) -> bool {
    cell matches Some(piece) && piece.is_white() != white
}

/// Whether the cell holds a piece of the side `white`.
pub open spec fn is_friend(cell: Option<Piece>, white: bool) -> bool {
    cell matches Some(piece) && piece.is_white() == white
}

/// Whether the cell holds the king of the side opposed to `white`.
pub open spec fn is_enemy_king(cell: Option<Piece>, white: bool) -> bool {
    cell matches Some(piece) && piece.is_white() != white && piece.is_king()
}

/// The squares a sliding piece of the side `white` can move to from the given cell in one
/// direction: the empty squares up to the first piece, and the square of that piece where it
/// is an opposing one.
pub open spec fn line_moves(
    grid: Seq<Seq<Option<Piece>>>,
    row: int,
    column: int,
    d_row: int,
    d_column: int,
    white: bool,
) -> Seq<Position> {
    let open = open_squares(grid, row, column, d_row, d_column);
    if is_enemy(first_piece(grid, row, column, d_row, d_column), white) {
        open.push(first_piece_square(grid, row, column, d_row, d_column))
    } else {
        open
    }
}

/// The square of the friendly piece that a sliding piece guards in one direction, if the first
/// piece in that direction is a friendly one.
pub open spec fn line_defends(
    grid: Seq<Seq<Option<Piece>>>,
    row: int,
    column: int,
    d_row: int,
    d_column: int,
    white: bool,
) -> Seq<Position> {
    if is_friend(first_piece(grid, row, column, d_row, d_column), white) {
        seq![first_piece_square(grid, row, column, d_row, d_column)]
    } else {
        Seq::empty()
    }
}

/// The square of the piece that a sliding piece pins in one direction: the first piece, where
/// it is an opposing piece other than the king and the next piece behind it is the opposing king.
pub open spec fn line_pins(
    grid: Seq<Seq<Option<Piece>>>,
    row: int,
    column: int,
    d_row: int,
    d_column: int,
    white: bool,
) -> Seq<Position> {
    let first = first_piece(grid, row, column, d_row, d_column);
    let count = clear_run(grid, row, column, d_row, d_column) as int + 1;
    if is_enemy(first, white) && !is_enemy_king(first, white) && is_enemy_king(
        first_piece(grid, row + steps(d_row, count), column + steps(d_column, count), d_row, d_column),
        white,
    ) {
        seq![first_piece_square(grid, row, column, d_row, d_column)]
    } else {
        Seq::empty()
    }
}

/// Whether a sliding piece gives check in one direction: the first piece is the opposing king.
pub open spec fn line_checks(
    grid: Seq<Seq<Option<Piece>>>,
    row: int,
    column: int,
    d_row: int,
    d_column: int,
    white: bool,
) -> bool {
    is_enemy_king(first_piece(grid, row, column, d_row, d_column), white)
}

/// The coordinate `delta` away from `from`, where there is one.
pub open spec fn shifted(from: usize, delta: int) -> Option<usize> {
    if 0 <= from + delta <= usize::MAX {
        Some((from + delta) as usize)
    } else {
        None
    }
}

/// The coordinate `delta` away from `from`, where that is no less than zero and no more than
/// a coordinate can be.
pub fn shift(from: usize, delta: i8) -> (to: Option<usize>)
    ensures
        to == shifted(from, delta as int),
{
    if delta >= 0 {
        let up: usize = delta as usize;
        if from <= usize::MAX - up {
            Some(from + up)
        } else {
            None
        }
    } else {
        let down: usize = (-(delta as i16)) as usize;
        if from >= down {
            Some(from - down)
        } else {
            None
        }
    }
}

/// The state of a walk along a line: what has been gathered, and whether an opposing piece
/// has been passed that may turn out to be pinned.
pub struct WalkView {
    pub moves: Seq<Position>,
    pub defends: Seq<Position>,
    pub current_path: Seq<Position>,
    pub pinned: Option<Position>,
    pub verified_pin: bool,
    pub checking: bool,
}

/// The state of a walk after the cell on `at` has been examined.
pub open spec fn walk_step(before: WalkView, cell: Option<Piece>, at: Position, white: bool) -> WalkView {
    if cell is None {
        if before.pinned is None {
            WalkView { moves: before.moves.push(at), current_path: before.current_path.push(at), ..before }
        } else {
            before
        }
    } else if is_friend(cell, white) {
        if before.pinned is None {
            WalkView { defends: before.defends.push(at), ..before }
        } else {
            before
        }
    } else if before.pinned is None {
        if is_enemy_king(cell, white) {
            WalkView { moves: before.moves.push(at), checking: true, ..before }
        } else {
            WalkView { moves: before.moves.push(at), pinned: Some(at), ..before }
        }
    } else if is_enemy_king(cell, white) {
        WalkView { verified_pin: true, ..before }
    } else {
        WalkView { pinned: None, ..before }
    }
}

/// Whether a walk ends at a cell: at a friendly piece, at the opposing king, and at any
/// opposing piece that follows another.
pub open spec fn walk_stops(before: WalkView, cell: Option<Piece>, white: bool) -> bool {
    cell is Some && (is_friend(cell, white) || before.pinned is Some || is_enemy_king(cell, white))
}

/// Examines one cell of a line on behalf of a sliding piece of the side `is_white` and brings
/// the state of the walk up to date. Returns whether the walk ends there.
pub fn examine_pinnable_position(
    row: usize,
    column: usize,
    board: &Vec<Vec<Option<Piece>>>,
    is_white: bool,
    moves: &mut Vec<Position>,
    defends: &mut Vec<Position>,
    current_path: &mut Vec<Position>,
    pinned: &mut Option<Position>,
    verified_pin: &mut bool,
    checking: &mut bool,
) -> (stop: bool)
    requires
        in_bounds(grid_view(board), row as int, column as int),
    ensures
        (WalkView {
            moves: final(moves)@,
            defends: final(defends)@,
            current_path: final(current_path)@,
            pinned: *final(pinned),
            verified_pin: *final(verified_pin),
            checking: *final(checking),
        }) == walk_step(
            (WalkView {
                moves: old(moves)@,
                defends: old(defends)@,
                current_path: old(current_path)@,
                pinned: *old(pinned),
                verified_pin: *old(verified_pin),
                checking: *old(checking),
            }),
            grid_view(board)[row as int][column as int],
            Position { row, column },
            is_white,
        ),
        stop == walk_stops(
            (WalkView {
                moves: old(moves)@,
                defends: old(defends)@,
                current_path: old(current_path)@,
                pinned: *old(pinned),
                verified_pin: *old(verified_pin),
                checking: *old(checking),
            }),
            grid_view(board)[row as int][column as int],
            is_white,
        ),
{
    match &board[row][column] {
        None => {
            if pinned.is_none() {
                moves.push(Position { row, column });
                current_path.push(Position { row, column });
            }
            false
        },
        Some(chess_piece) => {
            if is_white == chess_piece.is_white() {
                if pinned.is_none() {
                    defends.push(Position { row, column });
                }
                true
            } else if pinned.is_none() {
                moves.push(Position { row, column });
                if chess_piece.is_king() {
                    *checking = true;
                    true
                } else {
                    *pinned = Some(Position { row, column });
                    false
                }
            } else {
                if chess_piece.is_king() {
                    *verified_pin = true;
                } else {
                    *pinned = None;
                }
                true
            }
        },
    }
}

/// What holds of a walk that has examined `count` cells and goes on.
spec fn walk_goes_on(
    grid: Seq<Seq<Option<Piece>>>,
    row: int,
    column: int,
    d_row: int,
    d_column: int,
    white: bool,
    count: int,
    walk: WalkView,
) -> bool {
    let clear = clear_run(grid, row, column, d_row, d_column) as int;
    let at_row = row + steps(d_row, count);
    let at_column = column + steps(d_column, count);
    &&& count >= 0
    &&& in_bounds(grid, at_row, at_column)
    &&& walk.defends == Seq::<Position>::empty()
    &&& !walk.verified_pin
    &&& !walk.checking
    &&& match walk.pinned {
        None => {
            &&& clear == count + clear_run(grid, at_row, at_column, d_row, d_column)
            &&& walk.moves == run_squares(row, column, d_row, d_column, count as nat)
            &&& walk.current_path == walk.moves
        },
        Some(candidate) => {
            let first = first_piece(grid, row, column, d_row, d_column);
            &&& candidate.row == row + steps(d_row, clear + 1)
            &&& candidate.column == column + steps(d_column, clear + 1)
            &&& in_bounds(grid, candidate.row as int, candidate.column as int)
            &&& is_enemy(first, white)
            &&& !is_enemy_king(first, white)
            &&& count >= clear + 1
            &&& clear_run(grid, candidate.row as int, candidate.column as int, d_row, d_column) == count
                - clear - 1 + clear_run(grid, at_row, at_column, d_row, d_column)
            &&& walk.moves == open_squares(grid, row, column, d_row, d_column).push(candidate)
            &&& walk.current_path == open_squares(grid, row, column, d_row, d_column)
        },
    }
}

/// What holds of a walk that has ended.
spec fn walk_is_over(
    grid: Seq<Seq<Option<Piece>>>,
    row: int,
    column: int,
    d_row: int,
    d_column: int,
    white: bool,
    walk: WalkView,
) -> bool {
    &&& walk.moves == line_moves(grid, row, column, d_row, d_column, white)
    &&& walk.defends == line_defends(grid, row, column, d_row, d_column, white)
    &&& walk.verified_pin ==> walk.pinned is Some
    &&& line_pins(grid, row, column, d_row, d_column, white) == if walk.verified_pin {
        seq![walk.pinned.unwrap()]
    } else {
        Seq::<Position>::empty()
    }
    &&& walk.checking == line_checks(grid, row, column, d_row, d_column, white)
    &&& walk.current_path == open_squares(grid, row, column, d_row, d_column)
}

/// A walk that finds no cell to go on to has ended.
proof fn lemma_walk_ends_at_edge(
    grid: Seq<Seq<Option<Piece>>>,
    row: int,
    column: int,
    d_row: int,
    d_column: int,
    white: bool,
    count: int,
    walk: WalkView,
)
    requires
        is_direction(d_row, d_column),
        walk_goes_on(grid, row, column, d_row, d_column, white, count, walk),
        !in_bounds(grid, row + steps(d_row, count + 1), column + steps(d_column, count + 1)),
    ensures
        walk_is_over(grid, row, column, d_row, d_column, white, walk),
{
    let at_row = row + steps(d_row, count);
    let at_column = column + steps(d_column, count);
    assert(steps(d_row, count + 1) == steps(d_row, count) + d_row);
    assert(steps(d_column, count + 1) == steps(d_column, count) + d_column);
    assert(clear_run(grid, at_row, at_column, d_row, d_column) == 0);
    match walk.pinned {
        None => {
            assert(first_piece(grid, row, column, d_row, d_column) is None);
        },
        Some(candidate) => {
            let clear = clear_run(grid, row, column, d_row, d_column) as int;
            let behind = clear_run(grid, candidate.row as int, candidate.column as int, d_row, d_column) as int;
            assert(steps(d_row, clear + 1) + steps(d_row, behind + 1) == steps(d_row, count + 1));
            assert(steps(d_column, clear + 1) + steps(d_column, behind + 1) == steps(d_column, count + 1));
            assert(first_piece(grid, candidate.row as int, candidate.column as int, d_row, d_column) is None);
        },
    }
}

/// Examining the next cell of a line keeps a walk in order, or ends it with what the line holds.
proof fn lemma_walk_step(
    grid: Seq<Seq<Option<Piece>>>,
    row: int,
    column: int,
    d_row: int,
    d_column: int,
    white: bool,
    count: int,
    walk: WalkView,
    at: Position,
)
    requires
        is_direction(d_row, d_column),
        walk_goes_on(grid, row, column, d_row, d_column, white, count, walk),
        at.row == row + steps(d_row, count + 1),
        at.column == column + steps(d_column, count + 1),
        in_bounds(grid, at.row as int, at.column as int),
    ensures
        ({
            let cell = grid[at.row as int][at.column as int];
            let after = walk_step(walk, cell, at, white);
            if walk_stops(walk, cell, white) {
                walk_is_over(grid, row, column, d_row, d_column, white, after)
            } else {
                walk_goes_on(grid, row, column, d_row, d_column, white, count + 1, after)
            }
        }),
{
    let at_row = row + steps(d_row, count);
    let at_column = column + steps(d_column, count);
    assert(at == ray_square(row, column, d_row, d_column, count + 1));
    let cell = grid[at.row as int][at.column as int];
    assert(steps(d_row, count + 1) == steps(d_row, count) + d_row);
    assert(steps(d_column, count + 1) == steps(d_column, count) + d_column);
    assert(at.row == at_row + d_row && at.column == at_column + d_column);
    assert(clear_run(grid, at_row, at_column, d_row, d_column) == if cell is None {
        1 + clear_run(grid, at.row as int, at.column as int, d_row, d_column)
    } else {
        0
    });
    match walk.pinned {
        None => {
            assert(run_squares(row, column, d_row, d_column, count as nat).push(at) =~= run_squares(
                row,
                column,
                d_row,
                d_column,
                (count + 1) as nat,
            ));
            if cell is Some {
                assert(clear_run(grid, row, column, d_row, d_column) == count);
                assert(first_piece(grid, row, column, d_row, d_column) == cell);
                assert(first_piece_square(grid, row, column, d_row, d_column) == at);
            }
        },
        Some(candidate) => {
            let clear = clear_run(grid, row, column, d_row, d_column) as int;
            let behind = clear_run(grid, candidate.row as int, candidate.column as int, d_row, d_column) as int;
            if cell is Some {
                assert(behind == count - clear - 1);
                assert(steps(d_row, clear + 1) + steps(d_row, behind + 1) == steps(d_row, count + 1));
                assert(steps(d_column, clear + 1) + steps(d_column, behind + 1) == steps(d_column, count + 1));
                assert(first_piece(grid, candidate.row as int, candidate.column as int, d_row, d_column) == cell);
            }
        },
    }
}

/// The square one step away from the given cell, where the grid has a cell there.
pub fn neighbour(board: &Vec<Vec<Option<Piece>>>, row: usize, column: usize, direction: (i8, i8)) -> (next: Option<
    Position,
>)
    ensures
        next is Some <==> in_bounds(grid_view(board), row + direction.0, column + direction.1),
        next matches Some(at) ==> at.row == row + direction.0 && at.column == column + direction.1,
{
    let next_row = shift(row, direction.0);
    let next_column = shift(column, direction.1);
    assert(grid_view(board).len() == board.len());
    if let Some(r) = next_row {
        if r < board.len() {
            assert(grid_view(board)[r as int].len() == board[r as int].len());
            if let Some(c) = next_column {
                if c < board[r].len() {
                    return Some(Position { row: r, column: c });
                }
            }
        }
    }
    None
}

/// Walks from the given cell in one direction on behalf of a sliding piece of the side
/// `is_white`, and adds what it finds to what the piece has gathered so far: the squares it
/// can move to, which are also those it attacks; the friendly piece it guards; the opposing
/// piece it pins. Where the line ends on the opposing king, the empty squares walked become the
/// checking path.
pub fn examine_line(
    direction: (i8, i8),
    origin_row: usize,
    origin_column: usize,
    board: &Vec<Vec<Option<Piece>>>,
    is_white: bool,
    valid_moves: &mut Vec<Position>,
    attacks: &mut Vec<Position>,
    defends: &mut Vec<Position>,
    pins: &mut Vec<Position>,
    checking_path: &mut Option<Vec<Position>>,
)
    requires
        is_direction(direction.0 as int, direction.1 as int),
        in_bounds(grid_view(board), origin_row as int, origin_column as int),
    ensures
        final(valid_moves)@ == old(valid_moves)@ + line_moves(
            grid_view(board),
            origin_row as int,
            origin_column as int,
            direction.0 as int,
            direction.1 as int,
            is_white,
        ),
        final(attacks)@ == old(attacks)@ + line_moves(
            grid_view(board),
            origin_row as int,
            origin_column as int,
            direction.0 as int,
            direction.1 as int,
            is_white,
        ),
        final(defends)@ == old(defends)@ + line_defends(
            grid_view(board),
            origin_row as int,
            origin_column as int,
            direction.0 as int,
            direction.1 as int,
            is_white,
        ),
        final(pins)@ == old(pins)@ + line_pins(
            grid_view(board),
            origin_row as int,
            origin_column as int,
            direction.0 as int,
            direction.1 as int,
            is_white,
        ),
        path_view(*final(checking_path)) == if line_checks(
            grid_view(board),
            origin_row as int,
            origin_column as int,
            direction.0 as int,
            direction.1 as int,
            is_white,
        ) {
            Some(
                open_squares(
                    grid_view(board),
                    origin_row as int,
                    origin_column as int,
                    direction.0 as int,
                    direction.1 as int,
                ),
            )
        } else {
            path_view(*old(checking_path))
        },
{
    let ghost grid = grid_view(board);
    let ghost r0 = origin_row as int;
    let ghost c0 = origin_column as int;
    let ghost dr = direction.0 as int;
    let ghost dc = direction.1 as int;

    let mut moves: Vec<Position> = Vec::new();
    let mut guarded: Vec<Position> = Vec::new();
    let mut current_path: Vec<Position> = Vec::new();
    let mut pinned: Option<Position> = None;
    let mut verified_pin = false;
    let mut checking = false;

    let mut row = origin_row;
    let mut column = origin_column;
    let mut walking = true;
    let ghost mut count: int = 0;

    assert(moves@ =~= run_squares(r0, c0, dr, dc, 0));
    while walking
        invariant
            grid == grid_view(board),
            r0 == origin_row as int,
            c0 == origin_column as int,
            dr == direction.0 as int,
            dc == direction.1 as int,
            is_direction(dr, dc),
            row == r0 + steps(dr, count),
            column == c0 + steps(dc, count),
            walking ==> walk_goes_on(
                grid,
                r0,
                c0,
                dr,
                dc,
                is_white,
                count,
                (WalkView {
                    moves: moves@,
                    defends: guarded@,
                    current_path: current_path@,
                    pinned,
                    verified_pin,
                    checking,
                }),
            ),
            !walking ==> walk_is_over(
                grid,
                r0,
                c0,
                dr,
                dc,
                is_white,
                (WalkView {
                    moves: moves@,
                    defends: guarded@,
                    current_path: current_path@,
                    pinned,
                    verified_pin,
                    checking,
                }),
            ),
        decreases
            (if walking {
                1 + room(grid, row as int, column as int, dr, dc)
            } else {
                0
            }),
    {
        let ghost before = WalkView {
            moves: moves@,
            defends: guarded@,
            current_path: current_path@,
            pinned,
            verified_pin,
            checking,
        };
        proof {
            assert(steps(dr, count + 1) == steps(dr, count) + dr);
            assert(steps(dc, count + 1) == steps(dc, count) + dc);
        }
        match neighbour(board, row, column, direction) {
            None => {
                proof {
                    lemma_walk_ends_at_edge(grid, r0, c0, dr, dc, is_white, count, before);
                }
                walking = false;
            },
            Some(at) => {
                proof {
                    lemma_walk_step(grid, r0, c0, dr, dc, is_white, count, before, at);
                }
                let stop = examine_pinnable_position(
                    at.row,
                    at.column,
                    board,
                    is_white,
                    &mut moves,
                    &mut guarded,
                    &mut current_path,
                    &mut pinned,
                    &mut verified_pin,
                    &mut checking,
                );
                proof {
                    count = count + 1;
                }
                row = at.row;
                column = at.column;
                if stop {
                    walking = false;
                }
            },
        }
    }

    append_positions(valid_moves, &moves);
    append_positions(attacks, &moves);
    append_positions(defends, &guarded);
    if verified_pin {
        pins.push(pinned.unwrap());
    }
    if checking {
        *checking_path = Some(current_path);
    }
    proof {
        assert(final(pins)@ =~= old(pins)@ + line_pins(grid, r0, c0, dr, dc, is_white));
    }
}

/// Whether every pair of steps in the list is one of the eight compass directions.
pub open spec fn are_directions(directions: Seq<(i8, i8)>) -> bool {
    forall|i: int| 0 <= i < directions.len() ==> is_direction(#[trigger] directions[i].0 as int, directions[i].1 as int)
}

/// The squares a sliding piece can move to along the first `count` of its directions.
pub open spec fn slide_moves(
    grid: Seq<Seq<Option<Piece>>>,
    origin: Position,
    white: bool,
    directions: Seq<(i8, i8)>,
    count: nat,
) -> Seq<Position>
    decreases count,
{
    if count == 0 {
        Seq::empty()
    } else {
        let direction = directions[count - 1];
        slide_moves(grid, origin, white, directions, (count - 1) as nat) + line_moves(
            grid,
            origin.row as int,
            origin.column as int,
            direction.0 as int,
            direction.1 as int,
            white,
        )
    }
}

/// The squares of the friendly pieces a sliding piece guards along the first `count` of its
/// directions.
pub open spec fn slide_defends(
    grid: Seq<Seq<Option<Piece>>>,
    origin: Position,
    white: bool,
    directions: Seq<(i8, i8)>,
    count: nat,
) -> Seq<Position>
    decreases count,
{
    if count == 0 {
        Seq::empty()
    } else {
        let direction = directions[count - 1];
        slide_defends(grid, origin, white, directions, (count - 1) as nat) + line_defends(
            grid,
            origin.row as int,
            origin.column as int,
            direction.0 as int,
            direction.1 as int,
            white,
        )
    }
}

/// The squares of the opposing pieces a sliding piece pins along the first `count` of its
/// directions.
pub open spec fn slide_pins(
    grid: Seq<Seq<Option<Piece>>>,
    origin: Position,
    white: bool,
    directions: Seq<(i8, i8)>,
    count: nat,
) -> Seq<Position>
    decreases count,
{
    if count == 0 {
        Seq::empty()
    } else {
        let direction = directions[count - 1];
        slide_pins(grid, origin, white, directions, (count - 1) as nat) + line_pins(
            grid,
            origin.row as int,
            origin.column as int,
            direction.0 as int,
            direction.1 as int,
            white,
        )
    }
}

/// The checking path of a sliding piece over the first `count` of its directions: the empty
/// squares of the last of them that ends on the opposing king.
pub open spec fn slide_path(
    grid: Seq<Seq<Option<Piece>>>,
    origin: Position,
    white: bool,
    directions: Seq<(i8, i8)>,
    count: nat,
) -> Option<Seq<Position>>
    decreases count,
{
    if count == 0 {
        None
    } else {
        let direction = directions[count - 1];
        if line_checks(
            grid,
            origin.row as int,
            origin.column as int,
            direction.0 as int,
            direction.1 as int,
            white,
        ) {
            Some(
                open_squares(
                    grid,
                    origin.row as int,
                    origin.column as int,
                    direction.0 as int,
                    direction.1 as int,
                ),
            )
        } else {
            slide_path(grid, origin, white, directions, (count - 1) as nat)
        }
    }
}

/// The move data of a piece of the side `white` that slides from `origin` along the given
/// directions, taken in order.
pub open spec fn slide_data(
    grid: Seq<Seq<Option<Piece>>>,
    origin: Position,
    white: bool,
    directions: Seq<(i8, i8)>,
) -> MoveDataView {
    MoveDataView {
        position: origin,
        valid_moves: slide_moves(grid, origin, white, directions, directions.len()),
        attacks: slide_moves(grid, origin, white, directions, directions.len()),
        defends: slide_defends(grid, origin, white, directions, directions.len()),
        pins: slide_pins(grid, origin, white, directions, directions.len()),
        checking_path: slide_path(grid, origin, white, directions, directions.len()),
    }
}

/// The colour of the piece on `position`: `true` for white. Also `true` where no piece stands.
pub open spec fn white_on(grid: Seq<Seq<Option<Piece>>>, position: Position) -> bool {
    match piece_on(grid, position) {
        Some(piece) => piece.is_white(),
        None => true,
    }
}

/// The move data of the piece on `origin` when it slides along the given directions.
pub fn get_slide_move_data(origin: &Position, board: &Vec<Vec<Option<Piece>>>, directions: &Vec<(i8, i8)>) -> (data:
    MoveData)
    requires
        on_board(grid_view(board), *origin),
        piece_on(grid_view(board), *origin) is Some,
        are_directions(directions@),
    ensures
        data@ == slide_data(grid_view(board), *origin, white_on(grid_view(board), *origin), directions@),
{
    let mut valid_moves: Vec<Position> = Vec::new();
    let mut attacks: Vec<Position> = Vec::new();
    let mut defends: Vec<Position> = Vec::new();
    let mut pins: Vec<Position> = Vec::new();
    let mut checking_path: Option<Vec<Position>> = None;

    let is_white = match &board[origin.row][origin.column] {
        Some(piece) => piece.is_white(),
        None => true,
    };
    let ghost grid = grid_view(board);

    let mut i: usize = 0;
    while i < directions.len()
        invariant
            i <= directions.len(),
            grid == grid_view(board),
            on_board(grid, *origin),
            are_directions(directions@),
            is_white == white_on(grid, *origin),
            valid_moves@ == slide_moves(grid, *origin, is_white, directions@, i as nat),
            attacks@ == slide_moves(grid, *origin, is_white, directions@, i as nat),
            defends@ == slide_defends(grid, *origin, is_white, directions@, i as nat),
            pins@ == slide_pins(grid, *origin, is_white, directions@, i as nat),
            path_view(checking_path) == slide_path(grid, *origin, is_white, directions@, i as nat),
        decreases directions.len() - i,
    {
        examine_line(
            directions[i],
            origin.row,
            origin.column,
            board,
            is_white,
            &mut valid_moves,
            &mut attacks,
            &mut defends,
            &mut pins,
            &mut checking_path,
        );
        i += 1;
    }

    MoveData { position: *origin, valid_moves, attacks, defends, pins, checking_path }
}

/// The square a piece of the side `white` can hop to at the given coordinates: the square
/// itself where the grid has it and no friendly piece stands there.
pub open spec fn hop_moves(grid: Seq<Seq<Option<Piece>>>, row: int, column: int, white: bool) -> Seq<Position> {
    if in_bounds(grid, row, column) && !is_friend(grid[row][column], white) {
        seq![square(row, column)]
    } else {
        Seq::empty()
    }
}

/// The square at the given coordinates where a piece of the side `white` guards a friendly
/// piece there.
pub open spec fn hop_defends(grid: Seq<Seq<Option<Piece>>>, row: int, column: int, white: bool) -> Seq<Position> {
    if is_friend(piece_at(grid, row, column), white) {
        seq![square(row, column)]
    } else {
        Seq::empty()
    }
}

/// Whether the king opposed to the side `white` stands at the given coordinates.
pub open spec fn hop_checks(grid: Seq<Seq<Option<Piece>>>, row: int, column: int, white: bool) -> bool {
    is_enemy_king(piece_at(grid, row, column), white)
}

/// Examines the cell at the given offset from a piece of the side `is_white` that moves by
/// hops: an empty cell or one with an opposing piece is a move and an attack, one with a
/// friendly piece is guarded, and the opposing king there is in check. Nothing changes where
/// the grid has no such cell.
pub fn examine_position(
    origin_row: usize,
    origin_column: usize,
    offset: (i8, i8),
    board: &Vec<Vec<Option<Piece>>>,
    is_white: bool,
    valid_moves: &mut Vec<Position>,
    attacks: &mut Vec<Position>,
    defends: &mut Vec<Position>,
    checking: &mut bool,
)
    ensures
        final(valid_moves)@ == old(valid_moves)@ + hop_moves(
            grid_view(board),
            origin_row + offset.0,
            origin_column + offset.1,
            is_white,
        ),
        final(attacks)@ == old(attacks)@ + hop_moves(
            grid_view(board),
            origin_row + offset.0,
            origin_column + offset.1,
            is_white,
        ),
        final(defends)@ == old(defends)@ + hop_defends(
            grid_view(board),
            origin_row + offset.0,
            origin_column + offset.1,
            is_white,
        ),
        *final(checking) == (*old(checking) || hop_checks(
            grid_view(board),
            origin_row + offset.0,
            origin_column + offset.1,
            is_white,
        )),
{
    match neighbour(board, origin_row, origin_column, offset) {
        None => {
            assert(final(valid_moves)@ =~= old(valid_moves)@ + Seq::<Position>::empty());
        },
        Some(at) => {
            assert(at == square(origin_row + offset.0, origin_column + offset.1));
            match &board[at.row][at.column] {
                None => {
                    valid_moves.push(at);
                    attacks.push(at);
                },
                Some(chess_piece) => {
                    if is_white == chess_piece.is_white() {
                        defends.push(at);
                    } else {
                        valid_moves.push(at);
                        attacks.push(at);
                        if chess_piece.is_king() {
                            *checking = true;
                        }
                    }
                },
            }
        },
    }
    proof {
        let grid = grid_view(board);
        let row = origin_row + offset.0;
        let column = origin_column + offset.1;
        assert(final(valid_moves)@ =~= old(valid_moves)@ + hop_moves(grid, row, column, is_white));
        assert(final(attacks)@ =~= old(attacks)@ + hop_moves(grid, row, column, is_white));
        assert(final(defends)@ =~= old(defends)@ + hop_defends(grid, row, column, is_white));
    }
}

/// The squares a hopping piece can move to by the first `count` of its offsets.
pub open spec fn hops_moves(
    grid: Seq<Seq<Option<Piece>>>,
    origin: Position,
    white: bool,
    offsets: Seq<(i8, i8)>,
    count: nat,
) -> Seq<Position>
    decreases count,
{
    if count == 0 {
        Seq::empty()
    } else {
        let offset = offsets[count - 1];
        hops_moves(grid, origin, white, offsets, (count - 1) as nat) + hop_moves(
            grid,
            origin.row + offset.0,
            origin.column + offset.1,
            white,
        )
    }
}

/// The squares of the friendly pieces a hopping piece guards by the first `count` of its
/// offsets.
pub open spec fn hops_defends(
    grid: Seq<Seq<Option<Piece>>>,
    origin: Position,
    white: bool,
    offsets: Seq<(i8, i8)>,
    count: nat,
) -> Seq<Position>
    decreases count,
{
    if count == 0 {
        Seq::empty()
    } else {
        let offset = offsets[count - 1];
        hops_defends(grid, origin, white, offsets, (count - 1) as nat) + hop_defends(
            grid,
            origin.row + offset.0,
            origin.column + offset.1,
            white,
        )
    }
}

/// Whether a hopping piece finds the opposing king at one of the first `count` of its offsets.
pub open spec fn hops_check(
    grid: Seq<Seq<Option<Piece>>>,
    origin: Position,
    white: bool,
    offsets: Seq<(i8, i8)>,
    count: nat,
) -> bool
    decreases count,
{
    if count == 0 {
        false
    } else {
        let offset = offsets[count - 1];
        hops_check(grid, origin, white, offsets, (count - 1) as nat) || hop_checks(
            grid,
            origin.row + offset.0,
            origin.column + offset.1,
            white,
        )
    }
}

/// The move data of a piece of the side `white` that hops from `origin` by the given offsets,
/// taken in order. Such a piece pins nothing, and a check it gives cannot be blocked: its
/// checking path is empty.
pub open spec fn hop_data(
    grid: Seq<Seq<Option<Piece>>>,
    origin: Position,
    white: bool,
    offsets: Seq<(i8, i8)>,
) -> MoveDataView {
    MoveDataView {
        position: origin,
        valid_moves: hops_moves(grid, origin, white, offsets, offsets.len()),
        attacks: hops_moves(grid, origin, white, offsets, offsets.len()),
        defends: hops_defends(grid, origin, white, offsets, offsets.len()),
        pins: Seq::empty(),
        checking_path: if hops_check(grid, origin, white, offsets, offsets.len()) {
            Some(Seq::empty())
        } else {
            None
        },
    }
}

/// The move data of the piece on `origin` when it hops by the given offsets.
pub fn get_hop_move_data(origin: &Position, board: &Vec<Vec<Option<Piece>>>, offsets: &Vec<(i8, i8)>) -> (data:
    MoveData)
    requires
        on_board(grid_view(board), *origin),
        piece_on(grid_view(board), *origin) is Some,
    ensures
        data@ == hop_data(grid_view(board), *origin, white_on(grid_view(board), *origin), offsets@),
{
    let mut valid_moves: Vec<Position> = Vec::new();
    let mut attacks: Vec<Position> = Vec::new();
    let mut defends: Vec<Position> = Vec::new();
    let mut checking_path: Option<Vec<Position>> = None;
    let mut checking = false;

    let is_white = match &board[origin.row][origin.column] {
        Some(piece) => piece.is_white(),
        None => true,
    };
    let ghost grid = grid_view(board);

    let mut i: usize = 0;
    while i < offsets.len()
        invariant
            i <= offsets.len(),
            grid == grid_view(board),
            is_white == white_on(grid, *origin),
            valid_moves@ == hops_moves(grid, *origin, is_white, offsets@, i as nat),
            attacks@ == hops_moves(grid, *origin, is_white, offsets@, i as nat),
            defends@ == hops_defends(grid, *origin, is_white, offsets@, i as nat),
            checking == hops_check(grid, *origin, is_white, offsets@, i as nat),
        decreases offsets.len() - i,
    {
        examine_position(
            origin.row,
            origin.column,
            offsets[i],
            board,
            is_white,
            &mut valid_moves,
            &mut attacks,
            &mut defends,
            &mut checking,
        );
        i += 1;
    }

    if checking {
        checking_path = Some(Vec::new());
    }
    MoveData { position: *origin, valid_moves, attacks, defends, pins: Vec::new(), checking_path }
}

/// Whether the cell that lies `count` steps from the given one in a direction is empty.
pub open spec fn empty_at_distance(
    grid: Seq<Seq<Option<Piece>>>,
    row: int,
    column: int,
    d_row: int,
    d_column: int,
    count: int,
) -> bool {
    empty_at(grid, row + steps(d_row, count), column + steps(d_column, count))
}

/// Whether the `count` cells that follow the given one in a direction are all empty.
pub open spec fn path_is_clear(
    grid: Seq<Seq<Option<Piece>>>,
    row: int,
    column: int,
    d_row: int,
    d_column: int,
    count: int,
) -> bool {
    forall|step: int| 1 <= step <= count ==> #[trigger] empty_at_distance(grid, row, column, d_row, d_column, step)
}

/// The empty cells counted from a cell in a direction are empty, each of them, and the cell
/// that follows them is not.
pub proof fn lemma_clear_run(grid: Seq<Seq<Option<Piece>>>, row: int, column: int, d_row: int, d_column: int)
    requires
        is_direction(d_row, d_column),
    ensures
        path_is_clear(grid, row, column, d_row, d_column, clear_run(grid, row, column, d_row, d_column) as int),
        !empty_at_distance(
            grid,
            row,
            column,
            d_row,
            d_column,
            clear_run(grid, row, column, d_row, d_column) as int + 1,
        ),
    decreases clear_run(grid, row, column, d_row, d_column),
{
    let count = clear_run(grid, row, column, d_row, d_column) as int;
    if empty_at(grid, row + d_row, column + d_column) {
        lemma_clear_run(grid, row + d_row, column + d_column, d_row, d_column);
        let rest = clear_run(grid, row + d_row, column + d_column, d_row, d_column) as int;
        assert(count == rest + 1);
        assert forall|step: int| 1 <= step <= count implies #[trigger] empty_at_distance(
            grid,
            row,
            column,
            d_row,
            d_column,
            step,
        ) by {
            if step > 1 {
                assert(empty_at_distance(grid, row + d_row, column + d_column, d_row, d_column, step - 1));
                assert(steps(d_row, step) == d_row + steps(d_row, step - 1));
                assert(steps(d_column, step) == d_column + steps(d_column, step - 1));
            }
        }
        assert(steps(d_row, count + 1) == d_row + steps(d_row, rest + 1));
        assert(steps(d_column, count + 1) == d_column + steps(d_column, rest + 1));
    }
}

/// Whether a piece that slides from `origin` in a direction reaches `target` without passing
/// over a piece: the target lies in that direction and every cell before it is empty.
pub open spec fn slides_to(
    grid: Seq<Seq<Option<Piece>>>,
    origin: Position,
    d_row: int,
    d_column: int,
    target: Position,
) -> bool {
    exists|count: int|
        count >= 1 && #[trigger] ray_square(origin.row as int, origin.column as int, d_row, d_column, count)
            == target && in_bounds(
            grid,
            origin.row + steps(d_row, count),
            origin.column + steps(d_column, count),
        ) && path_is_clear(grid, origin.row as int, origin.column as int, d_row, d_column, count - 1)
}

/// Every move of a sliding piece in one direction is reached without passing over a piece.
pub proof fn lemma_line_moves_are_reached(
    grid: Seq<Seq<Option<Piece>>>,
    origin: Position,
    d_row: int,
    d_column: int,
    white: bool,
    target: Position,
)
    requires
        is_direction(d_row, d_column),
        line_moves(grid, origin.row as int, origin.column as int, d_row, d_column, white).contains(target),
    ensures
        slides_to(grid, origin, d_row, d_column, target),
{
    let row = origin.row as int;
    let column = origin.column as int;
    let clear = clear_run(grid, row, column, d_row, d_column) as int;
    lemma_clear_run(grid, row, column, d_row, d_column);
    let moves = line_moves(grid, row, column, d_row, d_column, white);
    let index = choose|index: int| 0 <= index < moves.len() && moves[index] == target;
    let count = index + 1;
    assert(ray_square(row, column, d_row, d_column, count) == target);
    if count <= clear {
        assert(empty_at_distance(grid, row, column, d_row, d_column, count));
    }
    assert forall|step: int| 1 <= step <= count - 1 implies #[trigger] empty_at_distance(
        grid,
        row,
        column,
        d_row,
        d_column,
        step,
    ) by {
        assert(path_is_clear(grid, row, column, d_row, d_column, clear));
    }
}

/// A move of a sliding piece along the first `count` of its directions belongs to one of them.
pub proof fn lemma_slide_move_has_direction(
    grid: Seq<Seq<Option<Piece>>>,
    origin: Position,
    white: bool,
    directions: Seq<(i8, i8)>,
    count: nat,
    target: Position,
) -> (index: int)
    requires
        count <= directions.len(),
        slide_moves(grid, origin, white, directions, count).contains(target),
    ensures
        0 <= index < count,
        line_moves(
            grid,
            origin.row as int,
            origin.column as int,
            directions[index].0 as int,
            directions[index].1 as int,
            white,
        ).contains(target),
    decreases count,
{
    let direction = directions[count - 1];
    let before = slide_moves(grid, origin, white, directions, (count - 1) as nat);
    let last = line_moves(
        grid,
        origin.row as int,
        origin.column as int,
        direction.0 as int,
        direction.1 as int,
        white,
    );
    let at = choose|at: int| 0 <= at < (before + last).len() && (before + last)[at] == target;
    if at < before.len() {
        assert(before[at] == target);
        lemma_slide_move_has_direction(grid, origin, white, directions, (count - 1) as nat, target)
    } else {
        assert(last[at - before.len()] == target);
        count - 1
    }
}

/// A sliding piece never moves beyond the first piece in its way: each of its moves lies in
/// one of its directions, and every cell between the piece and the move is empty.
pub proof fn lemma_slide_moves_stop_at_first_piece(
    grid: Seq<Seq<Option<Piece>>>,
    origin: Position,
    white: bool,
    directions: Seq<(i8, i8)>,
    target: Position,
)
    requires
        are_directions(directions),
        slide_data(grid, origin, white, directions).valid_moves.contains(target),
    ensures
        exists|index: int|
            0 <= index < directions.len() && #[trigger] slides_to(
                grid,
                origin,
                directions[index].0 as int,
                directions[index].1 as int,
                target,
            ),
{
    let index = lemma_slide_move_has_direction(grid, origin, white, directions, directions.len(), target);
    lemma_line_moves_are_reached(grid, origin, directions[index].0 as int, directions[index].1 as int, white, target);
}

/// The moves of a sliding piece are squares of the board.
pub proof fn lemma_slide_moves_on_board(
    grid: Seq<Seq<Option<Piece>>>,
    origin: Position,
    white: bool,
    directions: Seq<(i8, i8)>,
    target: Position,
)
    requires
        is_board(grid),
        are_directions(directions),
        slide_data(grid, origin, white, directions).valid_moves.contains(target),
    ensures
        on_board(grid, target),
{
    lemma_slide_moves_stop_at_first_piece(grid, origin, white, directions, target);
    let index = choose|index: int|
        0 <= index < directions.len() && #[trigger] slides_to(
            grid,
            origin,
            directions[index].0 as int,
            directions[index].1 as int,
            target,
        );
    let d_row = directions[index].0 as int;
    let d_column = directions[index].1 as int;
    let count = choose|count: int|
        count >= 1 && #[trigger] ray_square(origin.row as int, origin.column as int, d_row, d_column, count)
            == target && in_bounds(
            grid,
            origin.row + steps(d_row, count),
            origin.column + steps(d_column, count),
        ) && path_is_clear(grid, origin.row as int, origin.column as int, d_row, d_column, count - 1);
    assert(grid[origin.row + steps(d_row, count)].len() <= usize::MAX);
}

/// A move of a hopping piece by the first `count` of its offsets is a square of the board.
pub proof fn lemma_hop_moves_on_board(
    grid: Seq<Seq<Option<Piece>>>,
    origin: Position,
    white: bool,
    offsets: Seq<(i8, i8)>,
    count: nat,
    target: Position,
)
    requires
        is_board(grid),
        count <= offsets.len(),
        hops_moves(grid, origin, white, offsets, count).contains(target),
    ensures
        on_board(grid, target),
    decreases count,
{
    let offset = offsets[count - 1];
    let before = hops_moves(grid, origin, white, offsets, (count - 1) as nat);
    let last = hop_moves(grid, origin.row + offset.0, origin.column + offset.1, white);
    let at = choose|at: int| 0 <= at < (before + last).len() && (before + last)[at] == target;
    if at < before.len() {
        assert(before[at] == target);
        lemma_hop_moves_on_board(grid, origin, white, offsets, (count - 1) as nat, target);
    } else {
        assert(last[at - before.len()] == target);
        assert(grid[origin.row + offset.0].len() <= usize::MAX);
    }
}

/// Where the cells that follow a cell in a direction are empty up to a certain distance and
/// the next one is not, the empty cells counted are just those.
pub proof fn lemma_clear_run_is(
    grid: Seq<Seq<Option<Piece>>>,
    row: int,
    column: int,
    d_row: int,
    d_column: int,
    count: int,
)
    requires
        is_direction(d_row, d_column),
        count >= 0,
        path_is_clear(grid, row, column, d_row, d_column, count),
        !empty_at_distance(grid, row, column, d_row, d_column, count + 1),
    ensures
        clear_run(grid, row, column, d_row, d_column) == count,
{
    lemma_clear_run(grid, row, column, d_row, d_column);
    let found = clear_run(grid, row, column, d_row, d_column) as int;
    if found < count {
        assert(empty_at_distance(grid, row, column, d_row, d_column, found + 1));
    } else if found > count {
        assert(empty_at_distance(grid, row, column, d_row, d_column, count + 1));
    }
}

/// A sliding piece pins an opposing piece to its king: where the first piece in a direction
/// is an opposing piece other than the king, at the distance `first`, and the next piece
/// behind it is the opposing king, at the distance `second`, the line pins the first piece.
pub proof fn lemma_line_pins_piece_before_king(
    grid: Seq<Seq<Option<Piece>>>,
    origin: Position,
    d_row: int,
    d_column: int,
    white: bool,
    first: int,
    second: int,
)
    requires
        is_direction(d_row, d_column),
        1 <= first < second,
        forall|step: int|
            1 <= step < second && step != first ==> #[trigger] empty_at_distance(
                grid,
                origin.row as int,
                origin.column as int,
                d_row,
                d_column,
                step,
            ),
        is_enemy(piece_at(grid, origin.row + steps(d_row, first), origin.column + steps(d_column, first)), white),
        !is_enemy_king(
            piece_at(grid, origin.row + steps(d_row, first), origin.column + steps(d_column, first)),
            white,
        ),
        is_enemy_king(
            piece_at(grid, origin.row + steps(d_row, second), origin.column + steps(d_column, second)),
            white,
        ),
    ensures
        line_pins(grid, origin.row as int, origin.column as int, d_row, d_column, white) == seq![
            ray_square(origin.row as int, origin.column as int, d_row, d_column, first),
        ],
{
    let row = origin.row as int;
    let column = origin.column as int;
    lemma_clear_run_is(grid, row, column, d_row, d_column, first - 1);
    let at_row = row + steps(d_row, first);
    let at_column = column + steps(d_column, first);
    assert forall|step: int| 1 <= step <= second - first - 1 implies #[trigger] empty_at_distance(
        grid,
        at_row,
        at_column,
        d_row,
        d_column,
        step,
    ) by {
        assert(empty_at_distance(grid, row, column, d_row, d_column, first + step));
        assert(steps(d_row, first + step) == steps(d_row, first) + steps(d_row, step));
        assert(steps(d_column, first + step) == steps(d_column, first) + steps(d_column, step));
    }
    assert(steps(d_row, second) == steps(d_row, first) + steps(d_row, second - first));
    assert(steps(d_column, second) == steps(d_column, first) + steps(d_column, second - first));
    lemma_clear_run_is(grid, at_row, at_column, d_row, d_column, second - first - 1);
}

/// What a sliding piece pins in one of its directions is among what it pins.
pub proof fn lemma_slide_pins_include_line(
    grid: Seq<Seq<Option<Piece>>>,
    origin: Position,
    white: bool,
    directions: Seq<(i8, i8)>,
    count: nat,
    index: int,
    pinned: Position,
)
    requires
        0 <= index < count <= directions.len(),
        line_pins(
            grid,
            origin.row as int,
            origin.column as int,
            directions[index].0 as int,
            directions[index].1 as int,
            white,
        ).contains(pinned),
    ensures
        slide_pins(grid, origin, white, directions, count).contains(pinned),
    decreases count,
{
    let direction = directions[count - 1];
    let before = slide_pins(grid, origin, white, directions, (count - 1) as nat);
    let last = line_pins(
        grid,
        origin.row as int,
        origin.column as int,
        direction.0 as int,
        direction.1 as int,
        white,
    );
    if index == count - 1 {
        let at = choose|at: int| 0 <= at < last.len() && last[at] == pinned;
        assert((before + last)[before.len() + at] == pinned);
    } else {
        lemma_slide_pins_include_line(grid, origin, white, directions, (count - 1) as nat, index, pinned);
        let at = choose|at: int| 0 <= at < before.len() && before[at] == pinned;
        assert((before + last)[at] == pinned);
    }
}

/// What a sliding piece pins is an opposing piece other than the king.
pub proof fn lemma_slide_pin_is_opposing_piece(
    grid: Seq<Seq<Option<Piece>>>,
    origin: Position,
    white: bool,
    directions: Seq<(i8, i8)>,
    count: nat,
    pinned: Position,
)
    requires
        is_board(grid),
        count <= directions.len(),
        slide_pins(grid, origin, white, directions, count).contains(pinned),
    ensures
        on_board(grid, pinned),
        is_enemy(piece_on(grid, pinned), white),
        !is_enemy_king(piece_on(grid, pinned), white),
    decreases count,
{
    let direction = directions[count - 1];
    let before = slide_pins(grid, origin, white, directions, (count - 1) as nat);
    let last = line_pins(
        grid,
        origin.row as int,
        origin.column as int,
        direction.0 as int,
        direction.1 as int,
        white,
    );
    let at = choose|at: int| 0 <= at < (before + last).len() && (before + last)[at] == pinned;
    if at < before.len() {
        assert(before[at] == pinned);
        lemma_slide_pin_is_opposing_piece(grid, origin, white, directions, (count - 1) as nat, pinned);
    } else {
        assert(last[at - before.len()] == pinned);
        let clear = clear_run(
            grid,
            origin.row as int,
            origin.column as int,
            direction.0 as int,
            direction.1 as int,
        ) as int + 1;
        assert(grid[origin.row + steps(direction.0 as int, clear)].len() <= usize::MAX);
    }
}

/// No move of a sliding piece in one direction ends on a piece of its own side.
pub proof fn lemma_line_moves_avoid_friends(
    grid: Seq<Seq<Option<Piece>>>,
    origin: Position,
    d_row: int,
    d_column: int,
    white: bool,
    target: Position,
)
    requires
        is_board(grid),
        is_direction(d_row, d_column),
        line_moves(grid, origin.row as int, origin.column as int, d_row, d_column, white).contains(target),
    ensures
        !is_friend(piece_on(grid, target), white),
{
    let row = origin.row as int;
    let column = origin.column as int;
    let clear = clear_run(grid, row, column, d_row, d_column) as int;
    lemma_clear_run(grid, row, column, d_row, d_column);
    let moves = line_moves(grid, row, column, d_row, d_column, white);
    let index = choose|index: int| 0 <= index < moves.len() && moves[index] == target;
    let count = index + 1;
    assert(ray_square(row, column, d_row, d_column, count) == target);
    if count <= clear {
        assert(empty_at_distance(grid, row, column, d_row, d_column, count));
    }
    assert(in_bounds(grid, row + steps(d_row, count), column + steps(d_column, count)));
    assert(grid[row + steps(d_row, count)].len() <= usize::MAX);
}

/// No move of a sliding piece ends on a piece of its own side.
pub proof fn lemma_slide_moves_avoid_friends(
    grid: Seq<Seq<Option<Piece>>>,
    origin: Position,
    white: bool,
    directions: Seq<(i8, i8)>,
    target: Position,
)
    requires
        is_board(grid),
        are_directions(directions),
        slide_data(grid, origin, white, directions).valid_moves.contains(target),
    ensures
        !is_friend(piece_on(grid, target), white),
{
    let index = lemma_slide_move_has_direction(grid, origin, white, directions, directions.len(), target);
    lemma_line_moves_avoid_friends(
        grid,
        origin,
        directions[index].0 as int,
        directions[index].1 as int,
        white,
        target,
    );
}

/// No move of a hopping piece by the first `count` of its offsets ends on a piece of its own
/// side.
pub proof fn lemma_hop_moves_avoid_friends(
    grid: Seq<Seq<Option<Piece>>>,
    origin: Position,
    white: bool,
    offsets: Seq<(i8, i8)>,
    count: nat,
    target: Position,
)
    requires
        is_board(grid),
        count <= offsets.len(),
        hops_moves(grid, origin, white, offsets, count).contains(target),
    ensures
        !is_friend(piece_on(grid, target), white),
    decreases count,
{
    let offset = offsets[count - 1];
    let before = hops_moves(grid, origin, white, offsets, (count - 1) as nat);
    let last = hop_moves(grid, origin.row + offset.0, origin.column + offset.1, white);
    let at = choose|at: int| 0 <= at < (before + last).len() && (before + last)[at] == target;
    if at < before.len() {
        assert(before[at] == target);
        lemma_hop_moves_avoid_friends(grid, origin, white, offsets, (count - 1) as nat, target);
    } else {
        assert(last[at - before.len()] == target);
        assert(grid[origin.row + offset.0].len() <= usize::MAX);
    }
}

} // verus!
