//! What an evaluation means, square by square: the scan of a board leaves nothing out and
//! takes nothing in that does not stand on the board.

use vstd::prelude::*;
use crate::board::{is_board, on_board, piece_on};
use crate::evaluator::{
    any_restricted_move, board_scan, evaluation_of, is_opposing_data, is_opposing_king, king_moves,
    lemma_board_scan_is_sound, lemma_opposing_entry, opposing_entries, restricted_moves, row_scan, scan_cell,
    scan_row_at, ScanView,
};
use crate::game::GameState;
use crate::move_data::MoveDataView;
use crate::piece_move::PieceMoveView;
use crate::pieces::piece::Piece;
use crate::pieces::piece_util::is_friend;
use crate::pieces::{lemma_pin_is_opposing_piece, move_data_of};
use crate::position::{square, Position};

verus! {

/// What a scan gathers from the pieces of the side that has just moved.
pub enum Gathered {
    /// The squares they attack.
    Attacked,
    /// The squares of their own pieces that they guard.
    Defended,
    /// The squares of the opposing pieces that they pin.
    Pinned,
}

/// The squares of one kind that a scan has gathered.
pub open spec fn gathered(scan: ScanView, what: Gathered) -> Seq<Position> {
    match what {
        Gathered::Attacked => scan.attacked_positions,
        Gathered::Defended => scan.defended_positions,
        Gathered::Pinned => scan.pinned_positions,
    }
}

/// The squares of one kind that a piece adds to a scan.
pub open spec fn share(data: MoveDataView, what: Gathered) -> Seq<Position> {
    match what {
        Gathered::Attacked => data.attacks,
        Gathered::Defended => data.defends,
        Gathered::Pinned => data.pins,
    }
}

/// Whether a piece of the side `white_turn` stands on `from`, on the board, and attacks,
/// guards or pins `target`.
pub open spec fn adds(
    grid: Seq<Seq<Option<Piece>>>,
    white_turn: bool,
    last_move: Option<PieceMoveView>,
    what: Gathered,
    from: Position,
    target: Position,
) -> bool {
    &&& on_board(grid, from)
    &&& is_friend(piece_on(grid, from), white_turn)
    &&& share(move_data_of(grid, from, last_move), what).contains(target)
}

/// Looking at one more square of the board adds what the piece on it attacks, guards and pins
/// to what a scan has gathered, and nothing else, and takes nothing away.
pub proof fn lemma_scan_cell_gathers(
    before: ScanView,
    grid: Seq<Seq<Option<Piece>>>,
    white_turn: bool,
    last_move: Option<PieceMoveView>,
    position: Position,
    what: Gathered,
    target: Position,
)
    ensures
        gathered(scan_cell(before, grid, white_turn, last_move, position), what).contains(target) == (gathered(
            before,
            what,
        ).contains(target) || (is_friend(piece_on(grid, position), white_turn) && share(
            move_data_of(grid, position, last_move),
            what,
        ).contains(target))),
{
    let after = scan_cell(before, grid, white_turn, last_move, position);
    let had = gathered(before, what);
    let has = gathered(after, what);
    let adds = share(move_data_of(grid, position, last_move), what);
    if is_friend(piece_on(grid, position), white_turn) {
        assert(has == had + adds);
        if had.contains(target) {
            let at = choose|at: int| 0 <= at < had.len() && had[at] == target;
            assert(has[at] == target);
        }
        if adds.contains(target) {
            let at = choose|at: int| 0 <= at < adds.len() && adds[at] == target;
            assert(has[had.len() + at] == target);
        }
        if has.contains(target) {
            let at = choose|at: int| 0 <= at < has.len() && has[at] == target;
            if at < had.len() {
                assert(had[at] == target);
            } else {
                assert(adds[at - had.len()] == target);
            }
        }
    } else {
        assert(has == had);
    }
}

/// After the first squares of a row have been looked at, a scan has gathered what it had
/// gathered before and what the pieces on those squares attack, guard and pin.
pub proof fn lemma_row_scan_gathers(
    before: ScanView,
    grid: Seq<Seq<Option<Piece>>>,
    white_turn: bool,
    last_move: Option<PieceMoveView>,
    row: int,
    count: nat,
    what: Gathered,
    target: Position,
)
    requires
        is_board(grid),
        0 <= row < grid.len(),
        count <= grid[row].len(),
    ensures
        gathered(row_scan(before, grid, white_turn, last_move, row, count), what).contains(target) == (gathered(
            before,
            what,
        ).contains(target) || exists|from: Position|
            from.row == row && from.column < count && #[trigger] adds(
                grid,
                white_turn,
                last_move,
                what,
                from,
                target,
            )),
    decreases count,
{
    if count > 0 {
        let earlier = row_scan(before, grid, white_turn, last_move, row, (count - 1) as nat);
        let position = square(row, count - 1);
        assert(grid[row].len() <= usize::MAX);
        lemma_row_scan_gathers(before, grid, white_turn, last_move, row, (count - 1) as nat, what, target);
        lemma_scan_cell_gathers(earlier, grid, white_turn, last_move, position, what, target);
        let found = exists|from: Position|
            from.row == row && from.column < count && #[trigger] adds(
                grid,
                white_turn,
                last_move,
                what,
                from,
                target,
            );
        let found_earlier = exists|from: Position|
            from.row == row && from.column < count - 1 && #[trigger] adds(
                grid,
                white_turn,
                last_move,
                what,
                from,
                target,
            );
        if found {
            let from = choose|from: Position|
                from.row == row && from.column < count && #[trigger] adds(
                    grid,
                    white_turn,
                    last_move,
                    what,
                    from,
                    target,
                );
            if from.column < count - 1 {
                assert(found_earlier);
            } else {
                assert(from == position);
            }
        }
        if found_earlier {
            let from = choose|from: Position|
                from.row == row && from.column < count - 1 && #[trigger] adds(
                    grid,
                    white_turn,
                    last_move,
                    what,
                    from,
                    target,
                );
            assert(from.row == row && from.column < count && adds(grid, white_turn, last_move, what, from, target));
        }
        if adds(grid, white_turn, last_move, what, position, target) {
            assert(position.row == row && position.column < count);
        }
    }
}

/// Whether a row is among the first `count` rows that a scan looks at.
pub open spec fn row_is_scanned(grid: Seq<Seq<Option<Piece>>>, white_turn: bool, count: nat, row: int) -> bool {
    if white_turn {
        0 <= row < count
    } else {
        grid.len() - count <= row < grid.len()
    }
}

/// After the first rows have been looked at, a scan has gathered just what the pieces on those
/// rows attack, guard and pin.
pub proof fn lemma_board_scan_gathers(
    grid: Seq<Seq<Option<Piece>>>,
    white_turn: bool,
    last_move: Option<PieceMoveView>,
    count: nat,
    what: Gathered,
    target: Position,
)
    requires
        is_board(grid),
        count <= grid.len(),
    ensures
        gathered(board_scan(grid, white_turn, last_move, count), what).contains(target) == exists|from: Position|
            row_is_scanned(grid, white_turn, count, from.row as int) && #[trigger] adds(
                grid,
                white_turn,
                last_move,
                what,
                from,
                target,
            ),
    decreases count,
{
    let done = exists|from: Position|
        row_is_scanned(grid, white_turn, count, from.row as int) && #[trigger] adds(
            grid,
            white_turn,
            last_move,
            what,
            from,
            target,
        );
    if count > 0 {
        let row = scan_row_at(grid, white_turn, count - 1);
        let earlier = board_scan(grid, white_turn, last_move, (count - 1) as nat);
        lemma_board_scan_gathers(grid, white_turn, last_move, (count - 1) as nat, what, target);
        lemma_row_scan_gathers(earlier, grid, white_turn, last_move, row, grid[row].len(), what, target);
        let done_earlier = exists|from: Position|
            row_is_scanned(grid, white_turn, (count - 1) as nat, from.row as int) && #[trigger] adds(
                grid,
                white_turn,
                last_move,
                what,
                from,
                target,
            );
        let in_row = exists|from: Position|
            from.row == row && from.column < grid[row].len() && #[trigger] adds(
                grid,
                white_turn,
                last_move,
                what,
                from,
                target,
            );
        if done {
            let from = choose|from: Position|
                row_is_scanned(grid, white_turn, count, from.row as int) && #[trigger] adds(
                    grid,
                    white_turn,
                    last_move,
                    what,
                    from,
                    target,
                );
            if from.row == row {
                assert(from.row == row && from.column < grid[row].len());
                assert(in_row);
            } else {
                assert(row_is_scanned(grid, white_turn, (count - 1) as nat, from.row as int));
                assert(done_earlier);
            }
        }
        if done_earlier {
            let from = choose|from: Position|
                row_is_scanned(grid, white_turn, (count - 1) as nat, from.row as int) && #[trigger] adds(
                    grid,
                    white_turn,
                    last_move,
                    what,
                    from,
                    target,
                );
            assert(row_is_scanned(grid, white_turn, count, from.row as int));
        }
        if in_row {
            let from = choose|from: Position|
                from.row == row && from.column < grid[row].len() && #[trigger] adds(
                    grid,
                    white_turn,
                    last_move,
                    what,
                    from,
                    target,
                );
            assert(row_is_scanned(grid, white_turn, count, from.row as int));
        }
    }
}

/// The squares that an evaluation takes for attacked, guarded or pinned are just those that
/// some piece of the side that has just moved attacks, guards or pins.
pub proof fn lemma_scan_gathers_from_every_piece(
    grid: Seq<Seq<Option<Piece>>>,
    white_turn: bool,
    last_move: Option<PieceMoveView>,
    what: Gathered,
    target: Position,
)
    requires
        is_board(grid),
    ensures
        gathered(board_scan(grid, white_turn, last_move, grid.len()), what).contains(target) == exists|
            from: Position,
        | adds(grid, white_turn, last_move, what, from, target),
{
    lemma_board_scan_gathers(grid, white_turn, last_move, grid.len(), what, target);
    let listed = exists|from: Position|
        row_is_scanned(grid, white_turn, grid.len(), from.row as int) && #[trigger] adds(
            grid,
            white_turn,
            last_move,
            what,
            from,
            target,
        );
    if listed {
        let from = choose|from: Position|
            row_is_scanned(grid, white_turn, grid.len(), from.row as int) && #[trigger] adds(
                grid,
                white_turn,
                last_move,
                what,
                from,
                target,
            );
        assert(adds(grid, white_turn, last_move, what, from, target));
    }
    if exists|from: Position| adds(grid, white_turn, last_move, what, from, target) {
        let from = choose|from: Position| adds(grid, white_turn, last_move, what, from, target);
        assert(row_is_scanned(grid, white_turn, grid.len(), from.row as int));
    }
}

/// A pinned piece cannot move: where a piece of the side that has just moved pins a piece, the
/// legal moves that the evaluation finds for the other side hold no move of the pinned piece.
pub proof fn lemma_pinned_piece_cannot_move(
    grid: Seq<Seq<Option<Piece>>>,
    white_turn: bool,
    long_castle: bool,
    short_castle: bool,
    last_move: Option<PieceMoveView>,
    pinner: Position,
    pinned: Position,
)
    requires
        is_board(grid),
        on_board(grid, pinner),
        is_friend(piece_on(grid, pinner), white_turn),
        move_data_of(grid, pinner, last_move).pins.contains(pinned),
    ensures
        !evaluation_of(grid, white_turn, long_castle, short_castle, last_move).valid_moves.contains_key(pinned),
{
    let scan = board_scan(grid, white_turn, last_move, grid.len());
    let legal = evaluation_of(grid, white_turn, long_castle, short_castle, last_move).valid_moves;
    if legal.contains_key(pinned) {
        assert(adds(grid, white_turn, last_move, Gathered::Pinned, pinner, pinned));
        lemma_scan_gathers_from_every_piece(grid, white_turn, last_move, Gathered::Pinned, pinned);
        lemma_board_scan_is_sound(grid, white_turn, last_move, grid.len());
        lemma_pin_is_opposing_piece(grid, pinner, last_move, pinned);
        let king = scan.opposing_king.unwrap();
        assert(is_opposing_king(grid, white_turn, last_move, king));
        assert(king.position != pinned);
        let found = lemma_opposing_entry(
            scan.opposing_move_data,
            scan.pinned_positions,
            scan.checking_pieces,
            scan.opposing_move_data.len(),
            pinned,
        );
        assert(restricted_moves(scan.opposing_move_data[found], scan.pinned_positions, scan.checking_pieces).len()
            == 0);
    }
}

/// The lists of pieces that a scan keeps.
pub enum Listed {
    /// The pieces of the side that moves next, but for the king.
    Opposing,
    /// The pieces of the side that has just moved that give check.
    Checking,
}

/// The move data of one list of a scan.
pub open spec fn listed(scan: ScanView, list: Listed) -> Seq<MoveDataView> {
    match list {
        Listed::Opposing => scan.opposing_move_data,
        Listed::Checking => scan.checking_pieces,
    }
}

/// Whether the piece on a square of the board belongs on a list of a scan made for the side
/// `white_turn`, which has just moved.
pub open spec fn belongs(
    grid: Seq<Seq<Option<Piece>>>,
    white_turn: bool,
    last_move: Option<PieceMoveView>,
    list: Listed,
    position: Position,
) -> bool {
    &&& on_board(grid, position)
    &&& piece_on(grid, position) matches Some(piece) && match list {
        Listed::Opposing => piece.is_white() != white_turn && !piece.is_king(),
        Listed::Checking => piece.is_white() == white_turn && move_data_of(
            grid,
            position,
            last_move,
        ).checking_path is Some,
    }
}

/// Whether a list of a scan holds the move data of the piece on a square.
pub open spec fn lists(scan: ScanView, list: Listed, position: Position) -> bool {
    exists|i: int| 0 <= i < listed(scan, list).len() && (#[trigger] listed(scan, list)[i]).position == position
}

/// Looking at one more square of the board puts the piece on it on the list it belongs on,
/// and changes nothing else about the lists.
pub proof fn lemma_scan_cell_lists(
    before: ScanView,
    grid: Seq<Seq<Option<Piece>>>,
    white_turn: bool,
    last_move: Option<PieceMoveView>,
    position: Position,
    list: Listed,
    other: Position,
)
    requires
        on_board(grid, position),
    ensures
        lists(scan_cell(before, grid, white_turn, last_move, position), list, other) == (lists(before, list, other)
            || (other == position && belongs(grid, white_turn, last_move, list, position))),
{
    let after = scan_cell(before, grid, white_turn, last_move, position);
    let had = listed(before, list);
    let has = listed(after, list);
    let data = move_data_of(grid, position, last_move);
    assert(data.position == position);
    if belongs(grid, white_turn, last_move, list, position) {
        assert(has == had.push(data));
        assert(has[had.len() as int].position == position);
    } else {
        assert(has == had);
    }
    if lists(before, list, other) {
        let i = choose|i: int| 0 <= i < had.len() && (#[trigger] had[i]).position == other;
        assert(has[i].position == other);
    }
    if lists(after, list, other) {
        let i = choose|i: int| 0 <= i < has.len() && (#[trigger] has[i]).position == other;
        if i < had.len() {
            assert(had[i].position == other);
        }
    }
}

/// After the first squares of a row have been looked at, the lists of a scan hold what they
/// held before and the pieces on those squares that belong on them.
pub proof fn lemma_row_scan_lists(
    before: ScanView,
    grid: Seq<Seq<Option<Piece>>>,
    white_turn: bool,
    last_move: Option<PieceMoveView>,
    row: int,
    count: nat,
    list: Listed,
    other: Position,
)
    requires
        is_board(grid),
        0 <= row < grid.len(),
        count <= grid[row].len(),
    ensures
        lists(row_scan(before, grid, white_turn, last_move, row, count), list, other) == (lists(before, list, other)
            || (other.row == row && other.column < count && belongs(grid, white_turn, last_move, list, other))),
    decreases count,
{
    if count > 0 {
        let earlier = row_scan(before, grid, white_turn, last_move, row, (count - 1) as nat);
        assert(grid[row].len() <= usize::MAX);
        lemma_row_scan_lists(before, grid, white_turn, last_move, row, (count - 1) as nat, list, other);
        lemma_scan_cell_lists(earlier, grid, white_turn, last_move, square(row, count - 1), list, other);
    }
}

/// After the first rows have been looked at, the lists of a scan hold just the pieces on
/// those rows that belong on them.
pub proof fn lemma_board_scan_lists(
    grid: Seq<Seq<Option<Piece>>>,
    white_turn: bool,
    last_move: Option<PieceMoveView>,
    count: nat,
    list: Listed,
    other: Position,
)
    requires
        is_board(grid),
        count <= grid.len(),
    ensures
        lists(board_scan(grid, white_turn, last_move, count), list, other) == (row_is_scanned(
            grid,
            white_turn,
            count,
            other.row as int,
        ) && belongs(grid, white_turn, last_move, list, other)),
    decreases count,
{
    if count > 0 {
        let row = scan_row_at(grid, white_turn, count - 1);
        let earlier = board_scan(grid, white_turn, last_move, (count - 1) as nat);
        lemma_board_scan_lists(grid, white_turn, last_move, (count - 1) as nat, list, other);
        lemma_row_scan_lists(earlier, grid, white_turn, last_move, row, grid[row].len(), list, other);
    } else {
        let scan = board_scan(grid, white_turn, last_move, 0);
        assert(listed(scan, list).len() == 0);
    }
}

/// An entry of the opponent's pieces is in the map of legal moves for every piece that is
/// left with a move.
pub proof fn lemma_opposing_entry_is_there(
    opposing: Seq<MoveDataView>,
    pinned: Seq<Position>,
    checkers: Seq<MoveDataView>,
    count: nat,
    index: int,
)
    requires
        0 <= index < count <= opposing.len(),
        restricted_moves(opposing[index], pinned, checkers).len() > 0,
    ensures
        opposing_entries(opposing, pinned, checkers, count).contains_key(opposing[index].position),
    decreases count,
{
    if index < count - 1 {
        lemma_opposing_entry_is_there(opposing, pinned, checkers, (count - 1) as nat, index);
    }
}

/// The side that moves next is in check just when a piece of the other side gives check,
/// unless the position is in error.
pub proof fn lemma_in_check_means_a_piece_gives_check(
    grid: Seq<Seq<Option<Piece>>>,
    white_turn: bool,
    long_castle: bool,
    short_castle: bool,
    last_move: Option<PieceMoveView>,
)
    requires
        is_board(grid),
        evaluation_of(grid, white_turn, long_castle, short_castle, last_move).game_state != GameState::Error,
    ensures
        evaluation_of(grid, white_turn, long_castle, short_castle, last_move).in_check == exists|
            position: Position,
        | belongs(grid, white_turn, last_move, Listed::Checking, position),
{
    let scan = board_scan(grid, white_turn, last_move, grid.len());
    let checked = evaluation_of(grid, white_turn, long_castle, short_castle, last_move).in_check;
    assert(checked == (scan.checking_pieces.len() > 0));
    if checked {
        let position = scan.checking_pieces[0].position;
        assert(lists(scan, Listed::Checking, position));
        lemma_board_scan_lists(grid, white_turn, last_move, grid.len(), Listed::Checking, position);
    }
    if exists|position: Position| belongs(grid, white_turn, last_move, Listed::Checking, position) {
        let position = choose|position: Position| belongs(grid, white_turn, last_move, Listed::Checking, position);
        lemma_board_scan_lists(grid, white_turn, last_move, grid.len(), Listed::Checking, position);
        assert(row_is_scanned(grid, white_turn, grid.len(), position.row as int));
    }
}

/// The legal moves of a piece other than the king are the moves that the evaluation leaves
/// to it: the piece has an entry in the legal moves just when a move is left to it, and the
/// entry holds those moves. This holds of every piece of the side that moves next, unless the
/// position is in error.
pub proof fn lemma_legal_moves_of_piece(
    grid: Seq<Seq<Option<Piece>>>,
    white_turn: bool,
    long_castle: bool,
    short_castle: bool,
    last_move: Option<PieceMoveView>,
    position: Position,
)
    requires
        is_board(grid),
        belongs(grid, white_turn, last_move, Listed::Opposing, position),
        evaluation_of(grid, white_turn, long_castle, short_castle, last_move).game_state != GameState::Error,
    ensures
        ({
            let scan = board_scan(grid, white_turn, last_move, grid.len());
            let legal = evaluation_of(grid, white_turn, long_castle, short_castle, last_move).valid_moves;
            let left = restricted_moves(
                move_data_of(grid, position, last_move),
                scan.pinned_positions,
                scan.checking_pieces,
            );
            &&& legal.contains_key(position) == (left.len() > 0)
            &&& legal.contains_key(position) ==> legal[position] == left
        }),
{
    let scan = board_scan(grid, white_turn, last_move, grid.len());
    let legal = evaluation_of(grid, white_turn, long_castle, short_castle, last_move).valid_moves;
    let left = restricted_moves(move_data_of(grid, position, last_move), scan.pinned_positions, scan.checking_pieces);
    lemma_board_scan_is_sound(grid, white_turn, last_move, grid.len());
    let king = scan.opposing_king.unwrap();
    assert(is_opposing_king(grid, white_turn, last_move, king));
    assert(king.position != position);
    let entries = opposing_entries(
        scan.opposing_move_data,
        scan.pinned_positions,
        scan.checking_pieces,
        scan.opposing_move_data.len(),
    );
    assert(legal.contains_key(position) == entries.contains_key(position));
    if entries.contains_key(position) {
        let index = lemma_opposing_entry(
            scan.opposing_move_data,
            scan.pinned_positions,
            scan.checking_pieces,
            scan.opposing_move_data.len(),
            position,
        );
        assert(is_opposing_data(grid, white_turn, last_move, scan.opposing_move_data[index]));
    }
    if left.len() > 0 {
        lemma_board_scan_lists(grid, white_turn, last_move, grid.len(), Listed::Opposing, position);
        assert(row_is_scanned(grid, white_turn, grid.len(), position.row as int));
        let index = choose|i: int|
            0 <= i < scan.opposing_move_data.len() && (#[trigger] listed(scan, Listed::Opposing)[i]).position
                == position;
        assert(is_opposing_data(grid, white_turn, last_move, scan.opposing_move_data[index]));
        lemma_opposing_entry_is_there(
            scan.opposing_move_data,
            scan.pinned_positions,
            scan.checking_pieces,
            scan.opposing_move_data.len(),
            index,
        );
    }
}

/// Whether a king of the side that moves after the side `white_turn` stands on a square of the
/// board.
pub open spec fn opposing_king_on(grid: Seq<Seq<Option<Piece>>>, white_turn: bool, position: Position) -> bool {
    on_board(grid, position) && piece_on(grid, position) == Some(Piece::King(!white_turn))
}

/// Once the first squares of a row have been looked at, a scan has found a king of the side
/// that moves next if it had found one before or one stands on those squares.
pub proof fn lemma_row_scan_finds_king(
    before: ScanView,
    grid: Seq<Seq<Option<Piece>>>,
    white_turn: bool,
    last_move: Option<PieceMoveView>,
    row: int,
    count: nat,
    position: Position,
)
    requires
        is_board(grid),
        0 <= row < grid.len(),
        count <= grid[row].len(),
        before.opposing_king is Some || (position.row == row && position.column < count && opposing_king_on(
            grid,
            white_turn,
            position,
        )),
    ensures
        row_scan(before, grid, white_turn, last_move, row, count).opposing_king is Some,
    decreases count,
{
    if count > 0 {
        assert(grid[row].len() <= usize::MAX);
        if before.opposing_king is Some || position.column < count - 1 {
            lemma_row_scan_finds_king(before, grid, white_turn, last_move, row, (count - 1) as nat, position);
        } else {
            assert(square(row, count - 1) == position);
        }
    }
}

/// Once the first rows have been looked at, a scan has found a king of the side that moves
/// next if one stands on those rows.
pub proof fn lemma_board_scan_finds_king(
    grid: Seq<Seq<Option<Piece>>>,
    white_turn: bool,
    last_move: Option<PieceMoveView>,
    count: nat,
    position: Position,
)
    requires
        is_board(grid),
        count <= grid.len(),
        row_is_scanned(grid, white_turn, count, position.row as int),
        opposing_king_on(grid, white_turn, position),
    ensures
        board_scan(grid, white_turn, last_move, count).opposing_king is Some,
    decreases count,
{
    let row = scan_row_at(grid, white_turn, count - 1);
    let earlier = board_scan(grid, white_turn, last_move, (count - 1) as nat);
    if row != position.row {
        lemma_board_scan_finds_king(grid, white_turn, last_move, (count - 1) as nat, position);
    }
    lemma_row_scan_finds_king(earlier, grid, white_turn, last_move, row, grid[row].len(), position);
}

/// A position is in error just when the side that moves next has no king on the board, or
/// more than two pieces of the other side give check.
pub proof fn lemma_error_means_no_king_or_too_many_checks(
    grid: Seq<Seq<Option<Piece>>>,
    white_turn: bool,
    long_castle: bool,
    short_castle: bool,
    last_move: Option<PieceMoveView>,
)
    requires
        is_board(grid),
    ensures
        (evaluation_of(grid, white_turn, long_castle, short_castle, last_move).game_state == GameState::Error) == (
        !(exists|position: Position| opposing_king_on(grid, white_turn, position)) || board_scan(
            grid,
            white_turn,
            last_move,
            grid.len(),
        ).checking_pieces.len() > 2),
{
    let scan = board_scan(grid, white_turn, last_move, grid.len());
    lemma_board_scan_is_sound(grid, white_turn, last_move, grid.len());
    match scan.opposing_king {
        Some(king) => {
            assert(is_opposing_king(grid, white_turn, last_move, king));
            assert(opposing_king_on(grid, white_turn, king.position));
        },
        None => {
            if exists|position: Position| opposing_king_on(grid, white_turn, position) {
                let position = choose|position: Position| opposing_king_on(grid, white_turn, position);
                assert(row_is_scanned(grid, white_turn, grid.len(), position.row as int));
                lemma_board_scan_finds_king(grid, white_turn, last_move, grid.len(), position);
            }
        },
    }
}

/// Whether a map of legal moves holds a move.
pub open spec fn holds_a_move(legal: Map<Position, Seq<Position>>) -> bool {
    exists|origin: Position| legal.contains_key(origin) && (#[trigger] legal[origin]).len() > 0
}

/// The state of play follows from the legal moves: unless the position is in error, the game
/// goes on just when the side that moves next has a legal move; without one, the side that has
/// just moved has won where it gives check, and the game is a stalemate where it does not.
pub proof fn lemma_state_of_play(
    grid: Seq<Seq<Option<Piece>>>,
    white_turn: bool,
    long_castle: bool,
    short_castle: bool,
    last_move: Option<PieceMoveView>,
)
    requires
        is_board(grid),
        evaluation_of(grid, white_turn, long_castle, short_castle, last_move).game_state != GameState::Error,
    ensures
        ({
            let evaluation = evaluation_of(grid, white_turn, long_castle, short_castle, last_move);
            evaluation.game_state == if holds_a_move(evaluation.valid_moves) {
                GameState::Active
            } else if !evaluation.in_check {
                GameState::Stalemate
            } else if white_turn {
                GameState::WhiteWin
            } else {
                GameState::BlackWin
            }
        }),
{
    let scan = board_scan(grid, white_turn, last_move, grid.len());
    let evaluation = evaluation_of(grid, white_turn, long_castle, short_castle, last_move);
    let legal = evaluation.valid_moves;
    lemma_board_scan_is_sound(grid, white_turn, last_move, grid.len());
    let king = scan.opposing_king.unwrap();
    assert(is_opposing_king(grid, white_turn, last_move, king));
    let for_king = king_moves(
        grid,
        king,
        scan.attacked_positions,
        scan.defended_positions,
        long_castle,
        short_castle,
    );
    let opposing = scan.opposing_move_data;
    let entries = opposing_entries(opposing, scan.pinned_positions, scan.checking_pieces, opposing.len());
    let others_move = any_restricted_move(opposing, scan.pinned_positions, scan.checking_pieces, opposing.len());
    assert(legal == entries.insert(king.position, for_king));
    if for_king.len() > 0 {
        assert(legal.contains_key(king.position) && legal[king.position].len() > 0);
    }
    if others_move {
        let index = choose|i: int|
            0 <= i < opposing.len() && (#[trigger] restricted_moves(
                opposing[i],
                scan.pinned_positions,
                scan.checking_pieces,
            )).len() > 0;
        let origin = opposing[index].position;
        assert(is_opposing_data(grid, white_turn, last_move, opposing[index]));
        lemma_opposing_entry_is_there(opposing, scan.pinned_positions, scan.checking_pieces, opposing.len(), index);
        let found = lemma_opposing_entry(
            opposing,
            scan.pinned_positions,
            scan.checking_pieces,
            opposing.len(),
            origin,
        );
        assert(legal.contains_key(origin) && legal[origin].len() > 0);
    }
    if holds_a_move(legal) {
        let origin = choose|origin: Position| legal.contains_key(origin) && (#[trigger] legal[origin]).len() > 0;
        if origin != king.position {
            let found = lemma_opposing_entry(
                opposing,
                scan.pinned_positions,
                scan.checking_pieces,
                opposing.len(),
                origin,
            );
            assert(restricted_moves(opposing[found], scan.pinned_positions, scan.checking_pieces).len() > 0);
        }
    }
}

} // verus!
