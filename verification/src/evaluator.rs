use vstd::prelude::*;
use crate::board::is_board;
use crate::board::{grid_view, in_bounds, on_board, piece_on};
use crate::game::GameState;
use crate::move_data::{MoveData, MoveDataView};
use crate::move_map::MoveMap;
use crate::piece_move::{move_view, PieceMove, PieceMoveView};
use crate::pieces::king::{is_king_long_castle_valid, is_king_short_castle_valid, long_castle_valid, short_castle_valid};
use crate::pieces::piece::Piece;
use crate::pieces::piece_util::{is_friend};
use crate::pieces::{get_move_data, lemma_moves_leave_the_square, lemma_moves_on_board, move_data_of};
use crate::position::{append_positions, contains_position, copy_positions, square, Position};

verus! {

/// What a pass over the board gathers for the side that has just moved, the mover, and for the
/// side that moves next, the opponent.
pub struct Scan {
    /// The move data of the opponent's king.
    pub opposing_king: Option<MoveData>,
    /// The squares that the mover's pieces attack.
    pub attacked_positions: Vec<Position>,
    /// The move data of each of the opponent's pieces but the king.
    pub opposing_move_data: Vec<MoveData>,
    /// The move data of each of the mover's pieces that gives check.
    pub checking_pieces: Vec<MoveData>,
    /// The squares of the mover's pieces that another of them guards.
    pub defended_positions: Vec<Position>,
    /// The squares of the opponent's pieces that are pinned to their king.
    pub pinned_positions: Vec<Position>,
}

/// The mathematical content of a [`Scan`].
pub struct ScanView {
    pub opposing_king: Option<MoveDataView>,
    pub attacked_positions: Seq<Position>,
    pub opposing_move_data: Seq<MoveDataView>,
    pub checking_pieces: Seq<MoveDataView>,
    pub defended_positions: Seq<Position>,
    pub pinned_positions: Seq<Position>,
}

/// The content of each move data of a list.
pub open spec fn data_views(list: Seq<MoveData>) -> Seq<MoveDataView> {
    Seq::new(list.len(), |i: int| list[i]@)
}

/// The content of an optional move data.
pub open spec fn optional_data(data: Option<MoveData>) -> Option<MoveDataView> {
    match data {
        Some(d) => Some(d@),
        None => None,
    }
}

impl View for Scan {
    type V = ScanView;

    open spec fn view(&self) -> ScanView {
        ScanView {
            opposing_king: optional_data(self.opposing_king),
            attacked_positions: self.attacked_positions@,
            opposing_move_data: data_views(self.opposing_move_data@),
            checking_pieces: data_views(self.checking_pieces@),
            defended_positions: self.defended_positions@,
            pinned_positions: self.pinned_positions@,
        }
    }
}

/// The scan before any square has been looked at.
pub open spec fn empty_scan() -> ScanView {
    ScanView {
        opposing_king: None,
        attacked_positions: Seq::empty(),
        opposing_move_data: Seq::empty(),
        checking_pieces: Seq::empty(),
        defended_positions: Seq::empty(),
        pinned_positions: Seq::empty(),
    }
}

/// The scan after one more square has been looked at. An empty square adds nothing. A piece
/// of the opponent adds its move data, the king apart from the others. A piece of the mover
/// adds the squares it attacks, guards and pins, and itself where it gives check.
pub open spec fn scan_cell(
    before: ScanView,
    grid: Seq<Seq<Option<Piece>>>,
    white_turn: bool,
    last_move: Option<PieceMoveView>,
    position: Position,
) -> ScanView {
    match piece_on(grid, position) {
        None => before,
        Some(piece) => {
            let data = move_data_of(grid, position, last_move);
            if piece.is_white() != white_turn {
                if piece.is_king() {
                    ScanView { opposing_king: Some(data), ..before }
                } else {
                    ScanView { opposing_move_data: before.opposing_move_data.push(data), ..before }
                }
            } else {
                ScanView {
                    attacked_positions: before.attacked_positions + data.attacks,
                    defended_positions: before.defended_positions + data.defends,
                    pinned_positions: before.pinned_positions + data.pins,
                    checking_pieces: if data.checking_path is Some {
                        before.checking_pieces.push(data)
                    } else {
                        before.checking_pieces
                    },
                    ..before
                }
            }
        },
    }
}

/// The scan after the first `count` squares of a row have been looked at, from the left.
pub open spec fn row_scan(
    before: ScanView,
    grid: Seq<Seq<Option<Piece>>>,
    white_turn: bool,
    last_move: Option<PieceMoveView>,
    row: int,
    count: nat,
) -> ScanView
    decreases count,
{
    if count == 0 {
        before
    } else {
        scan_cell(
            row_scan(before, grid, white_turn, last_move, row, (count - 1) as nat),
            grid,
            white_turn,
            last_move,
            square(row, count - 1),
        )
    }
}

/// The row that is looked at after `index` others: rows are taken from the mover's own side
/// of the board, so from the first row up for white and from the last row down for black.
pub open spec fn scan_row_at(grid: Seq<Seq<Option<Piece>>>, white_turn: bool, index: int) -> int {
    if white_turn {
        index
    } else {
        grid.len() - 1 - index
    }
}

/// The scan after the first `count` rows have been looked at.
pub open spec fn board_scan(
    grid: Seq<Seq<Option<Piece>>>,
    white_turn: bool,
    last_move: Option<PieceMoveView>,
    count: nat,
) -> ScanView
    decreases count,
{
    if count == 0 {
        empty_scan()
    } else {
        let row = scan_row_at(grid, white_turn, count - 1);
        row_scan(
            board_scan(grid, white_turn, last_move, (count - 1) as nat),
            grid,
            white_turn,
            last_move,
            row,
            grid[row].len(),
        )
    }
}

/// Looks at one square of the board and adds to the scan what stands there.
pub fn scan_position(
    scan: &mut Scan,
    white_turn: bool,
    board: &Vec<Vec<Option<Piece>>>,
    last_move: &Option<PieceMove>,
    position: Position,
)
    requires
        on_board(grid_view(board), position),
    ensures
        final(scan)@ == scan_cell(old(scan)@, grid_view(board), white_turn, move_view(*last_move), position),
{
    match &board[position.row][position.column] {
        None => {},
        Some(chess_piece) => {
            let move_data = get_move_data(&position, board, last_move);
            if chess_piece.is_white() != white_turn {
                if chess_piece.is_king() {
                    scan.opposing_king = Some(move_data);
                } else {
                    scan.opposing_move_data.push(move_data);
                    assert(data_views(scan.opposing_move_data@) =~= data_views(old(scan).opposing_move_data@).push(
                        move_data@,
                    ));
                }
            } else {
                append_positions(&mut scan.attacked_positions, &move_data.attacks);
                append_positions(&mut scan.defended_positions, &move_data.defends);
                append_positions(&mut scan.pinned_positions, &move_data.pins);
                if move_data.checking_path.is_some() {
                    scan.checking_pieces.push(move_data);
                    assert(data_views(scan.checking_pieces@) =~= data_views(old(scan).checking_pieces@).push(
                        move_data@,
                    ));
                }
            }
        },
    }
}

/// Looks at every square of the board on behalf of the side `white_turn`, which has just
/// moved, and gathers what the evaluation needs.
pub fn scan_board(white_turn: bool, board: &Vec<Vec<Option<Piece>>>, last_move: &Option<PieceMove>) -> (scan: Scan)
    ensures
        scan@ == board_scan(grid_view(board), white_turn, move_view(*last_move), grid_view(board).len()),
{
    let mut scan = Scan {
        opposing_king: None,
        attacked_positions: Vec::new(),
        opposing_move_data: Vec::new(),
        checking_pieces: Vec::new(),
        defended_positions: Vec::new(),
        pinned_positions: Vec::new(),
    };
    let ghost grid = grid_view(board);
    let ghost last = move_view(*last_move);
    assert(scan@.opposing_move_data =~= empty_scan().opposing_move_data);
    assert(scan@.checking_pieces =~= empty_scan().checking_pieces);
    let mut k: usize = 0;
    while k < board.len()
        invariant
            k <= board.len(),
            grid == grid_view(board),
            last == move_view(*last_move),
            scan@ == board_scan(grid, white_turn, last, k as nat),
        decreases board.len() - k,
    {
        let i = if white_turn {
            k
        } else {
            board.len() - 1 - k
        };
        assert(i == scan_row_at(grid, white_turn, k as int));
        assert(grid[i as int] == board@[i as int]@);
        let ghost before = scan@;
        let mut j: usize = 0;
        while j < board[i].len()
            invariant
                i < board.len(),
                j <= board[i as int].len(),
                grid == grid_view(board),
                last == move_view(*last_move),
                scan@ == row_scan(before, grid, white_turn, last, i as int, j as nat),
            decreases board[i as int].len() - j,
        {
            assert(Position { row: i, column: j } == square(i as int, j as int));
            assert(grid[i as int] == board@[i as int]@);
            scan_position(&mut scan, white_turn, board, last_move, Position { row: i, column: j });
            j += 1;
        }
        k += 1;
    }
    scan
}

/// Whether moving to `target` ends the check that `checker` gives: by capturing it or by
/// stepping into its checking path.
pub open spec fn resolves_check(checker: MoveDataView, target: Position) -> bool {
    target == checker.position || (checker.checking_path matches Some(path) && path.contains(target))
}

/// The moves among `moves` that end the check that `checker` gives, in order.
pub open spec fn resolving_moves(moves: Seq<Position>, checker: MoveDataView) -> Seq<Position>
    decreases moves.len(),
{
    if moves.len() == 0 {
        Seq::empty()
    } else {
        let before = resolving_moves(moves.drop_last(), checker);
        if resolves_check(checker, moves.last()) {
            before.push(moves.last())
        } else {
            before
        }
    }
}

/// The moves left to a piece other than the king: none where it is pinned or two pieces give
/// check; where one piece gives check, those that capture it or block it; else all it has.
/// A pinned piece is left without any move, also without those along the line of the pin that
/// would keep its king covered: a deliberate simplification of the rule.
pub open spec fn restricted_moves(data: MoveDataView, pinned: Seq<Position>, checkers: Seq<MoveDataView>) -> Seq<
    Position,
> {
    if pinned.contains(data.position) || checkers.len() > 1 {
        Seq::empty()
    } else if checkers.len() == 1 {
        resolving_moves(data.valid_moves, checkers[0])
    } else {
        data.valid_moves
    }
}

/// Works out the moves left to a piece other than the king, given the pinned squares and the
/// pieces that give check.
pub fn restrict_moves(data: &MoveData, pinned: &Vec<Position>, checkers: &Vec<MoveData>) -> (moves: Vec<Position>)
    ensures
        moves@ == restricted_moves(data@, pinned@, data_views(checkers@)),
{
    if contains_position(pinned, &data.position) || checkers.len() > 1 {
        Vec::new()
    } else if checkers.len() == 1 {
        let checking_piece = &checkers[0];
        let mut moves: Vec<Position> = Vec::new();
        let mut i: usize = 0;
        assert(data.valid_moves@.take(0) =~= Seq::<Position>::empty());
        while i < data.valid_moves.len()
            invariant
                i <= data.valid_moves.len(),
                checkers.len() == 1,
                *checking_piece == checkers@[0],
                moves@ == resolving_moves(data.valid_moves@.take(i as int), checking_piece@),
            decreases data.valid_moves.len() - i,
        {
            let target = data.valid_moves[i];
            let on_path = match &checking_piece.checking_path {
                Some(path) => contains_position(path, &target),
                None => false,
            };
            assert(data.valid_moves@.take(i + 1).drop_last() =~= data.valid_moves@.take(i as int));
            if target == checking_piece.position || on_path {
                moves.push(target);
            }
            i += 1;
        }
        assert(data.valid_moves@.take(i as int) =~= data.valid_moves@);
        moves
    } else {
        copy_positions(&data.valid_moves)
    }
}

/// The moves among `moves` to squares that are neither attacked nor held by a guarded piece,
/// in order.
pub open spec fn safe_moves(moves: Seq<Position>, attacked: Seq<Position>, defended: Seq<Position>) -> Seq<Position>
    decreases moves.len(),
{
    if moves.len() == 0 {
        Seq::empty()
    } else {
        let before = safe_moves(moves.drop_last(), attacked, defended);
        if !attacked.contains(moves.last()) && !defended.contains(moves.last()) {
            before.push(moves.last())
        } else {
            before
        }
    }
}

/// The squares a king on `origin` castles to: two files to the left where he may castle long,
/// two files to the right where he may castle short, each only where the right to it is left
/// and the board has the square.
pub open spec fn castle_moves(
    grid: Seq<Seq<Option<Piece>>>,
    origin: Position,
    attacked: Seq<Position>,
    long_castle: bool,
    short_castle: bool,
) -> Seq<Position> {
    let long = if long_castle && long_castle_valid(grid, origin, attacked) && in_bounds(
        grid,
        origin.row as int,
        origin.column - 2,
    ) {
        seq![square(origin.row as int, origin.column - 2)]
    } else {
        Seq::empty()
    };
    let short = if short_castle && short_castle_valid(grid, origin, attacked) && in_bounds(
        grid,
        origin.row as int,
        origin.column + 2,
    ) {
        seq![square(origin.row as int, origin.column + 2)]
    } else {
        Seq::empty()
    };
    long + short
}

/// The moves left to the king: the safe ones among those he has, then the castling moves.
pub open spec fn king_moves(
    grid: Seq<Seq<Option<Piece>>>,
    king: MoveDataView,
    attacked: Seq<Position>,
    defended: Seq<Position>,
    long_castle: bool,
    short_castle: bool,
) -> Seq<Position> {
    safe_moves(king.valid_moves, attacked, defended) + castle_moves(
        grid,
        king.position,
        attacked,
        long_castle,
        short_castle,
    )
}

/// Works out the moves left to the king, given the squares that the other side attacks and
/// guards and the rights to castle that are left to him.
pub fn restrict_king_moves(
    board: &Vec<Vec<Option<Piece>>>,
    king: &MoveData,
    attacked: &Vec<Position>,
    defended: &Vec<Position>,
    long_castle: bool,
    short_castle: bool,
) -> (moves: Vec<Position>)
    ensures
        moves@ == king_moves(grid_view(board), king@, attacked@, defended@, long_castle, short_castle),
{
    let ghost grid = grid_view(board);
    let mut moves: Vec<Position> = Vec::new();
    let mut i: usize = 0;
    assert(king.valid_moves@.take(0) =~= Seq::<Position>::empty());
    while i < king.valid_moves.len()
        invariant
            i <= king.valid_moves.len(),
            moves@ == safe_moves(king.valid_moves@.take(i as int), attacked@, defended@),
        decreases king.valid_moves.len() - i,
    {
        let target = king.valid_moves[i];
        assert(king.valid_moves@.take(i + 1).drop_last() =~= king.valid_moves@.take(i as int));
        if !contains_position(attacked, &target) && !contains_position(defended, &target) {
            moves.push(target);
        }
        i += 1;
    }
    assert(king.valid_moves@.take(i as int) =~= king.valid_moves@);
    let ghost safe = moves@;

    let origin = king.position;
    assert(grid.len() == board.len());
    if origin.row < board.len() {
        assert(grid[origin.row as int] == board@[origin.row as int]@);
        assert(grid[origin.row as int].len() == board[origin.row as int].len());
    }
    let ghost long = Seq::<Position>::empty();
    if long_castle && is_king_long_castle_valid(&origin, board, attacked) {
        if origin.column >= 2 && origin.row < board.len() && origin.column - 2 < board[origin.row].len() {
            let target = Position { row: origin.row, column: origin.column - 2 };
            assert(target == square(origin.row as int, origin.column - 2));
            moves.push(target);
            proof {
                long = seq![target];
            }
        }
    }
    let ghost short = Seq::<Position>::empty();
    if short_castle && is_king_short_castle_valid(&origin, board, attacked) {
        if origin.column <= usize::MAX - 2 && origin.row < board.len() && origin.column + 2 < board[origin.row].len() {
            let target = Position { row: origin.row, column: origin.column + 2 };
            assert(target == square(origin.row as int, origin.column + 2));
            moves.push(target);
            proof {
                short = seq![target];
            }
        }
    }
    assert(moves@ =~= safe + (long + short));
    assert(long == if long_castle && long_castle_valid(grid, origin, attacked@) && in_bounds(
        grid,
        origin.row as int,
        origin.column - 2,
    ) {
        seq![square(origin.row as int, origin.column - 2)]
    } else {
        Seq::<Position>::empty()
    });
    assert(short == if short_castle && short_castle_valid(grid, origin, attacked@) && in_bounds(
        grid,
        origin.row as int,
        origin.column + 2,
    ) {
        seq![square(origin.row as int, origin.column + 2)]
    } else {
        Seq::<Position>::empty()
    });
    moves
}

/// The entries that the first `count` of the opponent's pieces other than the king have in
/// the map of legal moves: one for each piece that is left with a move.
pub open spec fn opposing_entries(
    opposing: Seq<MoveDataView>,
    pinned: Seq<Position>,
    checkers: Seq<MoveDataView>,
    count: nat,
) -> Map<Position, Seq<Position>>
    decreases count,
{
    if count == 0 {
        Map::empty()
    } else {
        let data = opposing[count - 1];
        let moves = restricted_moves(data, pinned, checkers);
        let before = opposing_entries(opposing, pinned, checkers, (count - 1) as nat);
        if moves.len() > 0 {
            before.insert(data.position, moves)
        } else {
            before
        }
    }
}

/// Whether one of the first `count` of the opponent's pieces other than the king is left with
/// a move.
pub open spec fn any_restricted_move(
    opposing: Seq<MoveDataView>,
    pinned: Seq<Position>,
    checkers: Seq<MoveDataView>,
    count: nat,
) -> bool {
    exists|i: int| 0 <= i < count && (#[trigger] restricted_moves(opposing[i], pinned, checkers)).len() > 0
}

/// The outcome of an evaluation.
pub struct Evaluation {
    /// The state of play.
    pub game_state: GameState,
    /// Whether the side that moves next is in check.
    pub in_check: bool,
    /// The moves that the side that moves next may make.
    pub valid_moves: MoveMap,
}

/// The mathematical content of an [`Evaluation`].
pub struct EvaluationView {
    pub game_state: GameState,
    pub in_check: bool,
    pub valid_moves: Map<Position, Seq<Position>>,
}

impl View for Evaluation {
    type V = EvaluationView;

    open spec fn view(&self) -> EvaluationView {
        EvaluationView { game_state: self.game_state, in_check: self.in_check, valid_moves: self.valid_moves@ }
    }
}

/// The evaluation of a position that cannot be played on: no move is legal in it.
pub open spec fn failed_evaluation() -> EvaluationView {
    EvaluationView { game_state: GameState::Error, in_check: false, valid_moves: Map::empty() }
}

/// The evaluation that follows from a scan of the board. Without a king of the opponent, or
/// with more than two pieces giving check, the position is in error. Else the opponent is in
/// check where a piece gives check, and the legal moves are those left to each of the
/// opponent's pieces. Where none is left, the mover has won if the opponent is in check, and
/// the game is a stalemate if not.
pub open spec fn scan_evaluation(
    grid: Seq<Seq<Option<Piece>>>,
    scan: ScanView,
    white_turn: bool,
    long_castle: bool,
    short_castle: bool,
) -> EvaluationView {
    match scan.opposing_king {
        None => failed_evaluation(),
        Some(king) => {
            if scan.checking_pieces.len() > 2 {
                failed_evaluation()
            } else {
                let for_king = king_moves(
                    grid,
                    king,
                    scan.attacked_positions,
                    scan.defended_positions,
                    long_castle,
                    short_castle,
                );
                let in_check = scan.checking_pieces.len() > 0;
                let can_move = for_king.len() > 0 || any_restricted_move(
                    scan.opposing_move_data,
                    scan.pinned_positions,
                    scan.checking_pieces,
                    scan.opposing_move_data.len(),
                );
                EvaluationView {
                    game_state: if can_move {
                        GameState::Active
                    } else if in_check {
                        if white_turn {
                            GameState::WhiteWin
                        } else {
                            GameState::BlackWin
                        }
                    } else {
                        GameState::Stalemate
                    },
                    in_check,
                    valid_moves: opposing_entries(
                        scan.opposing_move_data,
                        scan.pinned_positions,
                        scan.checking_pieces,
                        scan.opposing_move_data.len(),
                    ).insert(king.position, for_king),
                }
            }
        },
    }
}

/// The evaluation of a position in which the side `white_turn` has just moved: whether the
/// other side is in check, what it may play, and whether the game goes on. The rights to
/// castle are those of the side that moves next.
pub open spec fn evaluation_of(
    grid: Seq<Seq<Option<Piece>>>,
    white_turn: bool,
    long_castle: bool,
    short_castle: bool,
    last_move: Option<PieceMoveView>,
) -> EvaluationView {
    scan_evaluation(grid, board_scan(grid, white_turn, last_move, grid.len()), white_turn, long_castle, short_castle)
}

/// Evaluates the board after a move of the side `white_turn`: runs the move generator over
/// every piece and works out the check, the legal moves and the state of play for the other
/// side, whose rights to castle are `long_castle` and `short_castle`.
pub fn evaluate(
    white_turn: bool,
    board: &Vec<Vec<Option<Piece>>>,
    long_castle: bool,
    short_castle: bool,
    last_move: &Option<PieceMove>,
) -> (evaluation: Evaluation)
    ensures
        evaluation@ == evaluation_of(grid_view(board), white_turn, long_castle, short_castle, move_view(*last_move)),
{
    let scan = scan_board(white_turn, board, last_move);
    let ghost view = scan@;
    if scan.opposing_king.is_none() || scan.checking_pieces.len() > 2 {
        return Evaluation { game_state: GameState::Error, in_check: false, valid_moves: MoveMap::new() };
    }
    let player_check = scan.checking_pieces.len() > 0;

    let mut valid_moves = MoveMap::new();
    let mut opponent_can_move = false;
    let mut i: usize = 0;
    while i < scan.opposing_move_data.len()
        invariant
            i <= scan.opposing_move_data.len(),
            view == scan@,
            valid_moves@ == opposing_entries(
                view.opposing_move_data,
                view.pinned_positions,
                view.checking_pieces,
                i as nat,
            ),
            opponent_can_move == any_restricted_move(
                view.opposing_move_data,
                view.pinned_positions,
                view.checking_pieces,
                i as nat,
            ),
        decreases scan.opposing_move_data.len() - i,
    {
        let move_data = &scan.opposing_move_data[i];
        let moves = restrict_moves(move_data, &scan.pinned_positions, &scan.checking_pieces);
        assert(move_data@ == view.opposing_move_data[i as int]);
        if moves.len() > 0 {
            opponent_can_move = true;
            valid_moves.insert(move_data.position, moves);
        }
        i += 1;
    }

    let op_king = scan.opposing_king.as_ref().unwrap();
    let for_king = restrict_king_moves(
        board,
        op_king,
        &scan.attacked_positions,
        &scan.defended_positions,
        long_castle,
        short_castle,
    );
    if for_king.len() > 0 {
        opponent_can_move = true;
    }
    valid_moves.insert(op_king.position, for_king);

    let game_state = if opponent_can_move {
        GameState::Active
    } else if player_check {
        if white_turn {
            GameState::WhiteWin
        } else {
            GameState::BlackWin
        }
    } else {
        GameState::Stalemate
    };
    Evaluation { game_state, in_check: player_check, valid_moves }
}

/// Whether a move data is that of a piece of the opponent, other than the king, on the board.
pub open spec fn is_opposing_data(
    grid: Seq<Seq<Option<Piece>>>,
    white_turn: bool,
    last_move: Option<PieceMoveView>,
    data: MoveDataView,
) -> bool {
    &&& on_board(grid, data.position)
    &&& piece_on(grid, data.position) matches Some(piece) && piece.is_white() != white_turn && !piece.is_king()
    &&& data == move_data_of(grid, data.position, last_move)
}

/// Whether a move data is that of a king of the opponent on the board.
pub open spec fn is_opposing_king(
    grid: Seq<Seq<Option<Piece>>>,
    white_turn: bool,
    last_move: Option<PieceMoveView>,
    data: MoveDataView,
) -> bool {
    &&& on_board(grid, data.position)
    &&& piece_on(grid, data.position) matches Some(piece) && piece.is_white() != white_turn && piece.is_king()
    &&& data == move_data_of(grid, data.position, last_move)
}

/// Whether a move data is that of a piece of the mover on the board that gives check.
pub open spec fn is_checker(
    grid: Seq<Seq<Option<Piece>>>,
    white_turn: bool,
    last_move: Option<PieceMoveView>,
    data: MoveDataView,
) -> bool {
    &&& on_board(grid, data.position)
    &&& is_friend(piece_on(grid, data.position), white_turn)
    &&& data == move_data_of(grid, data.position, last_move)
    &&& data.checking_path is Some
}

/// Whether a scan holds only what stands on the board: each move data is that of a piece of
/// the side it is listed for.
pub open spec fn scan_is_sound(
    grid: Seq<Seq<Option<Piece>>>,
    white_turn: bool,
    last_move: Option<PieceMoveView>,
    scan: ScanView,
) -> bool {
    &&& forall|i: int|
        0 <= i < scan.opposing_move_data.len() ==> is_opposing_data(
            grid,
            white_turn,
            last_move,
            #[trigger] scan.opposing_move_data[i],
        )
    &&& scan.opposing_king matches Some(king) ==> is_opposing_king(grid, white_turn, last_move, king)
    &&& forall|i: int|
        0 <= i < scan.checking_pieces.len() ==> is_checker(
            grid,
            white_turn,
            last_move,
            #[trigger] scan.checking_pieces[i],
        )
}

/// Looking at one more square of the board keeps a scan sound.
pub proof fn lemma_scan_cell_is_sound(
    before: ScanView,
    grid: Seq<Seq<Option<Piece>>>,
    white_turn: bool,
    last_move: Option<PieceMoveView>,
    position: Position,
)
    requires
        scan_is_sound(grid, white_turn, last_move, before),
        on_board(grid, position),
    ensures
        scan_is_sound(grid, white_turn, last_move, scan_cell(before, grid, white_turn, last_move, position)),
{
    let after = scan_cell(before, grid, white_turn, last_move, position);
    let data = move_data_of(grid, position, last_move);
    assert(data.position == position);
    assert forall|i: int| 0 <= i < after.opposing_move_data.len() implies is_opposing_data(
        grid,
        white_turn,
        last_move,
        #[trigger] after.opposing_move_data[i],
    ) by {
        if i < before.opposing_move_data.len() {
            assert(after.opposing_move_data[i] == before.opposing_move_data[i]);
        }
    }
    assert forall|i: int| 0 <= i < after.checking_pieces.len() implies is_checker(
        grid,
        white_turn,
        last_move,
        #[trigger] after.checking_pieces[i],
    ) by {
        if i < before.checking_pieces.len() {
            assert(after.checking_pieces[i] == before.checking_pieces[i]);
        }
    }
}

/// Looking at the first squares of a row keeps a scan sound.
pub proof fn lemma_row_scan_is_sound(
    before: ScanView,
    grid: Seq<Seq<Option<Piece>>>,
    white_turn: bool,
    last_move: Option<PieceMoveView>,
    row: int,
    count: nat,
)
    requires
        is_board(grid),
        scan_is_sound(grid, white_turn, last_move, before),
        0 <= row < grid.len(),
        count <= grid[row].len(),
    ensures
        scan_is_sound(grid, white_turn, last_move, row_scan(before, grid, white_turn, last_move, row, count)),
    decreases count,
{
    if count > 0 {
        lemma_row_scan_is_sound(before, grid, white_turn, last_move, row, (count - 1) as nat);
        assert(grid[row].len() <= usize::MAX);
        lemma_scan_cell_is_sound(
            row_scan(before, grid, white_turn, last_move, row, (count - 1) as nat),
            grid,
            white_turn,
            last_move,
            square(row, count - 1),
        );
    }
}

/// A scan of the first rows of the board is sound.
pub proof fn lemma_board_scan_is_sound(
    grid: Seq<Seq<Option<Piece>>>,
    white_turn: bool,
    last_move: Option<PieceMoveView>,
    count: nat,
)
    requires
        is_board(grid),
        count <= grid.len(),
    ensures
        scan_is_sound(grid, white_turn, last_move, board_scan(grid, white_turn, last_move, count)),
    decreases count,
{
    if count > 0 {
        lemma_board_scan_is_sound(grid, white_turn, last_move, (count - 1) as nat);
        let row = scan_row_at(grid, white_turn, count - 1);
        lemma_row_scan_is_sound(
            board_scan(grid, white_turn, last_move, (count - 1) as nat),
            grid,
            white_turn,
            last_move,
            row,
            grid[row].len(),
        );
    }
}

/// The moves that end a check are among the moves they are taken from.
pub proof fn lemma_resolving_moves_are_moves(moves: Seq<Position>, checker: MoveDataView, target: Position)
    requires
        resolving_moves(moves, checker).contains(target),
    ensures
        moves.contains(target),
        resolves_check(checker, target),
    decreases moves.len(),
{
    if moves.len() > 0 {
        let before = resolving_moves(moves.drop_last(), checker);
        if resolves_check(checker, moves.last()) && target == moves.last() {
            assert(moves[moves.len() - 1] == target);
        } else {
            if resolves_check(checker, moves.last()) {
                let kept = before.push(moves.last());
                let at = choose|at: int| 0 <= at < kept.len() && kept[at] == target;
                assert(before[at] == target);
            }
            lemma_resolving_moves_are_moves(moves.drop_last(), checker, target);
            let at = choose|at: int| 0 <= at < moves.drop_last().len() && moves.drop_last()[at] == target;
            assert(moves[at] == target);
        }
    }
}

/// The safe moves are among the moves they are taken from, and none of them is attacked or
/// held by a guarded piece.
pub proof fn lemma_safe_moves_are_moves(
    moves: Seq<Position>,
    attacked: Seq<Position>,
    defended: Seq<Position>,
    target: Position,
)
    requires
        safe_moves(moves, attacked, defended).contains(target),
    ensures
        moves.contains(target),
        !attacked.contains(target),
        !defended.contains(target),
    decreases moves.len(),
{
    if moves.len() > 0 {
        let before = safe_moves(moves.drop_last(), attacked, defended);
        let safe = !attacked.contains(moves.last()) && !defended.contains(moves.last());
        if safe && target == moves.last() {
            assert(moves[moves.len() - 1] == target);
        } else {
            if safe {
                let kept = before.push(moves.last());
                let at = choose|at: int| 0 <= at < kept.len() && kept[at] == target;
                assert(before[at] == target);
            }
            lemma_safe_moves_are_moves(moves.drop_last(), attacked, defended, target);
            let at = choose|at: int| 0 <= at < moves.drop_last().len() && moves.drop_last()[at] == target;
            assert(moves[at] == target);
        }
    }
}

/// The moves left to a piece are among the moves it has.
pub proof fn lemma_restricted_moves_are_moves(
    data: MoveDataView,
    pinned: Seq<Position>,
    checkers: Seq<MoveDataView>,
    target: Position,
)
    requires
        restricted_moves(data, pinned, checkers).contains(target),
    ensures
        data.valid_moves.contains(target),
{
    if pinned.contains(data.position) || checkers.len() > 1 {
        assert(restricted_moves(data, pinned, checkers).len() == 0);
    } else if checkers.len() == 1 {
        lemma_resolving_moves_are_moves(data.valid_moves, checkers[0], target);
    }
}

/// An entry of the opponent's pieces in the map of legal moves is that of one of the pieces:
/// it is filed under its square and holds the moves left to it, of which there is at least one.
pub proof fn lemma_opposing_entry(
    opposing: Seq<MoveDataView>,
    pinned: Seq<Position>,
    checkers: Seq<MoveDataView>,
    count: nat,
    origin: Position,
) -> (index: int)
    requires
        count <= opposing.len(),
        opposing_entries(opposing, pinned, checkers, count).contains_key(origin),
    ensures
        0 <= index < count,
        opposing[index].position == origin,
        opposing_entries(opposing, pinned, checkers, count)[origin] == restricted_moves(
            opposing[index],
            pinned,
            checkers,
        ),
        restricted_moves(opposing[index], pinned, checkers).len() > 0,
    decreases count,
{
    let data = opposing[count - 1];
    let moves = restricted_moves(data, pinned, checkers);
    if moves.len() > 0 && data.position == origin {
        count - 1
    } else {
        lemma_opposing_entry(opposing, pinned, checkers, (count - 1) as nat, origin)
    }
}

/// Every legal move that an evaluation finds starts from a square of the board on which a
/// piece of the side that moves next stands, and ends on another square of the board.
pub proof fn lemma_legal_moves_are_sound(
    grid: Seq<Seq<Option<Piece>>>,
    white_turn: bool,
    long_castle: bool,
    short_castle: bool,
    last_move: Option<PieceMoveView>,
    start: Position,
    end: Position,
)
    requires
        is_board(grid),
        evaluation_of(grid, white_turn, long_castle, short_castle, last_move).valid_moves.contains_key(start),
        evaluation_of(grid, white_turn, long_castle, short_castle, last_move).valid_moves[start].contains(end),
    ensures
        on_board(grid, start),
        on_board(grid, end),
        start != end,
        piece_on(grid, start) matches Some(piece) && piece.is_white() != white_turn,
{
    lemma_legal_origin_is_opposing_piece(grid, white_turn, long_castle, short_castle, last_move, start);
    let scan = board_scan(grid, white_turn, last_move, grid.len());
    lemma_board_scan_is_sound(grid, white_turn, last_move, grid.len());
    let king = scan.opposing_king.unwrap();
    let legal = evaluation_of(grid, white_turn, long_castle, short_castle, last_move).valid_moves;
    if king.position == start {
        let safe = safe_moves(king.valid_moves, scan.attacked_positions, scan.defended_positions);
        let castle = castle_moves(grid, king.position, scan.attacked_positions, long_castle, short_castle);
        let at = choose|at: int| 0 <= at < (safe + castle).len() && (safe + castle)[at] == end;
        if at < safe.len() {
            assert(safe[at] == end);
            lemma_safe_moves_are_moves(king.valid_moves, scan.attacked_positions, scan.defended_positions, end);
            lemma_moves_on_board(grid, start, last_move, end);
            lemma_moves_leave_the_square(grid, start, last_move, end);
        } else {
            assert(castle[at - safe.len()] == end);
            assert(grid[start.row as int].len() <= usize::MAX);
        }
    } else {
        let index = lemma_opposing_entry(
            scan.opposing_move_data,
            scan.pinned_positions,
            scan.checking_pieces,
            scan.opposing_move_data.len(),
            start,
        );
        let data = scan.opposing_move_data[index];
        assert(is_opposing_data(grid, white_turn, last_move, data));
        lemma_restricted_moves_are_moves(data, scan.pinned_positions, scan.checking_pieces, end);
        lemma_moves_on_board(grid, start, last_move, end);
        lemma_moves_leave_the_square(grid, start, last_move, end);
    }
}

/// Every square that has an entry in the legal moves of an evaluation is a square of the
/// board on which a piece of the side that moves next stands.
pub proof fn lemma_legal_origin_is_opposing_piece(
    grid: Seq<Seq<Option<Piece>>>,
    white_turn: bool,
    long_castle: bool,
    short_castle: bool,
    last_move: Option<PieceMoveView>,
    origin: Position,
)
    requires
        is_board(grid),
        evaluation_of(grid, white_turn, long_castle, short_castle, last_move).valid_moves.contains_key(origin),
    ensures
        on_board(grid, origin),
        piece_on(grid, origin) matches Some(piece) && piece.is_white() != white_turn,
{
    let scan = board_scan(grid, white_turn, last_move, grid.len());
    lemma_board_scan_is_sound(grid, white_turn, last_move, grid.len());
    let king = scan.opposing_king.unwrap();
    assert(is_opposing_king(grid, white_turn, last_move, king));
    if king.position != origin {
        let index = lemma_opposing_entry(
            scan.opposing_move_data,
            scan.pinned_positions,
            scan.checking_pieces,
            scan.opposing_move_data.len(),
            origin,
        );
        assert(is_opposing_data(grid, white_turn, last_move, scan.opposing_move_data[index]));
    }
}

} // verus!
