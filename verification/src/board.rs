use vstd::prelude::*;
use vstd::string::*;
use crate::config::{is_starting_placement, is_starting_position, BoardConfig, PieceConfig};
use crate::pieces::piece::Piece;
use crate::position::Position;

verus! {

/// The contents of a grid of cells, row by row.
pub open spec fn grid_view(board: &Vec<Vec<Option<Piece>>>) -> Seq<Seq<Option<Piece>>> {
    Seq::new(board@.len(), |row: int| board@[row]@)
}

/// Whether the grid has a cell at the given coordinates.
pub open spec fn in_bounds(grid: Seq<Seq<Option<Piece>>>, row: int, column: int) -> bool {
    0 <= row < grid.len() && 0 <= column < grid[row].len()
}

/// Whether the grid has a cell on the given square.
pub open spec fn on_board(grid: Seq<Seq<Option<Piece>>>, position: Position) -> bool {
    in_bounds(grid, position.row as int, position.column as int)
}

/// The piece at the given coordinates; none where the cell is empty or the grid has no such cell.
pub open spec fn piece_at(grid: Seq<Seq<Option<Piece>>>, row: int, column: int) -> Option<Piece> {
    if in_bounds(grid, row, column) {
        grid[row][column]
    } else {
        None
    }
}

/// The piece on the given square, if any.
pub open spec fn piece_on(grid: Seq<Seq<Option<Piece>>>, position: Position) -> Option<Piece> {
    piece_at(grid, position.row as int, position.column as int)
}

/// Whether the grid has a cell at the given coordinates and no piece stands in it.
pub open spec fn empty_at(grid: Seq<Seq<Option<Piece>>>, row: int, column: int) -> bool {
    in_bounds(grid, row, column) && grid[row][column] is None
}

/// Whether a grid is one that a board can hold: its rows and the cells of each row can be
/// counted.
pub open spec fn is_board(grid: Seq<Seq<Option<Piece>>>) -> bool {
    &&& grid.len() <= usize::MAX
    &&& forall|row: int| 0 <= row < grid.len() ==> (#[trigger] grid[row]).len() <= usize::MAX
}

/// The cells of a board are a grid that a board can hold.
pub proof fn lemma_grid_view_is_board(board: &Vec<Vec<Option<Piece>>>)
    ensures
        is_board(grid_view(board)),
{
    let grid = grid_view(board);
    assert(grid.len() == board.len());
    assert forall|row: int| 0 <= row < grid.len() implies (#[trigger] grid[row]).len() <= usize::MAX by {
        assert(grid[row] == board@[row]@);
        assert(board@[row]@.len() == board@[row].len());
    }
}

/// The grid with the cell on `position` replaced by `cell`.
pub open spec fn with_cell(
    grid: Seq<Seq<Option<Piece>>>,
    position: Position,
    cell: Option<Piece>,
) -> Seq<Seq<Option<Piece>>> {
    grid.update(position.row as int, grid[position.row as int].update(position.column as int, cell))
}

/// The grid after the piece on `from`, if any, has gone to `to`, replacing what stood there.
pub open spec fn with_move(
    grid: Seq<Seq<Option<Piece>>>,
    from: Position,
    to: Position,
) -> Seq<Seq<Option<Piece>>> {
    with_cell(with_cell(grid, from, None), to, piece_on(grid, from))
}

/// The piece that a name in a configuration stands for.
pub open spec fn named_piece(name: Seq<char>, white: bool) -> Option<Piece> {
    if name == "bishop"@ {
        Some(Piece::Bishop(white))
    } else if name == "king"@ {
        Some(Piece::King(white))
    } else if name == "knight"@ {
        Some(Piece::Knight(white))
    } else if name == "pawn"@ {
        Some(Piece::Pawn(white))
    } else if name == "queen"@ {
        Some(Piece::Queen(white))
    } else if name == "rook"@ {
        Some(Piece::Rook(white))
    } else {
        None
    }
}

/// Whether a placement names a kind of piece and a square of a board of the given size.
pub open spec fn placement_fits(placement: PieceConfig, rows: int, columns: int) -> bool {
    &&& named_piece(placement.piece@, placement.white) is Some
    &&& placement.row < rows
    &&& placement.column < columns
}

/// Whether every placement of the configuration names a kind of piece and a square of its board.
pub open spec fn config_fits(config: &BoardConfig) -> bool {
    forall|i: int|
        0 <= i < config.pieces@.len() ==> placement_fits(
            #[trigger] config.pieces@[i],
            config.rows as int,
            config.columns as int,
        )
}

/// The starting position of a game fits every board of eight rows and eight columns or more.
pub proof fn lemma_starting_position_fits(config: &BoardConfig)
    requires
        is_starting_position(config.pieces@),
        config.rows >= 8,
        config.columns >= 8,
    ensures
        config_fits(config),
{
    assert forall|i: int| 0 <= i < config.pieces@.len() implies placement_fits(
        #[trigger] config.pieces@[i],
        config.rows as int,
        config.columns as int,
    ) by {
        assert(is_starting_placement(config.pieces@[i], i));
    }
}

/// What the first `count` placements leave in the cell at the given coordinates: the piece of
/// the last of them that names the cell, or nothing.
pub open spec fn placed_at(placements: Seq<PieceConfig>, count: nat, row: int, column: int) -> Option<Piece>
    decreases count,
{
    if count == 0 {
        None
    } else {
        let last = placements[count - 1];
        if last.row == row && last.column == column {
            named_piece(last.piece@, last.white)
        } else {
            placed_at(placements, (count - 1) as nat, row, column)
        }
    }
}

/// A row of the given length with no piece in it.
pub open spec fn empty_row(columns: nat) -> Seq<Option<Piece>> {
    Seq::new(columns, |column: int| None)
}

/// The grid of the given size that the first `count` placements produce.
pub open spec fn placed_grid(placements: Seq<PieceConfig>, count: nat, rows: nat, columns: nat) -> Seq<
    Seq<Option<Piece>>,
> {
    Seq::new(rows, |row: int| Seq::new(columns, |column: int| placed_at(placements, count, row, column)))
}

/// The piece that a name in a configuration stands for.
pub fn piece_from_name(name: &String, white: bool) -> (piece: Option<Piece>)
    ensures
        piece == named_piece(name@, white),
{
    if *name == String::from_str("bishop") {
        Some(Piece::Bishop(white))
    } else if *name == String::from_str("king") {
        Some(Piece::King(white))
    } else if *name == String::from_str("knight") {
        Some(Piece::Knight(white))
    } else if *name == String::from_str("pawn") {
        Some(Piece::Pawn(white))
    } else if *name == String::from_str("queen") {
        Some(Piece::Queen(white))
    } else if *name == String::from_str("rook") {
        Some(Piece::Rook(white))
    } else {
        None
    }
}

/// Whether every placement of the configuration names a kind of piece and a square of its board.
pub fn config_is_valid(config: &BoardConfig) -> (valid: bool)
    ensures
        valid == config_fits(config),
{
    let mut i: usize = 0;
    while i < config.pieces.len()
        invariant
            i <= config.pieces.len(),
            forall|j: int|
                0 <= j < i ==> placement_fits(
                    #[trigger] config.pieces@[j],
                    config.rows as int,
                    config.columns as int,
                ),
        decreases config.pieces.len() - i,
    {
        let placement = &config.pieces[i];
        if piece_from_name(&placement.piece, placement.white).is_none() || placement.row >= config.rows
            || placement.column >= config.columns {
            return false;
        }
        i += 1;
    }
    true
}

/// Whether the grid has a cell on `position`.
pub fn is_on_board(board: &Vec<Vec<Option<Piece>>>, position: &Position) -> (on: bool)
    ensures
        on == on_board(grid_view(board), *position),
{
    assert(grid_view(board).len() == board.len());
    if position.row < board.len() {
        assert(grid_view(board)[position.row as int] == board@[position.row as int]@);
        position.column < board[position.row].len()
    } else {
        false
    }
}

/// A copy of a grid of cells.
pub fn copy_grid(board: &Vec<Vec<Option<Piece>>>) -> (copy: Vec<Vec<Option<Piece>>>)
    ensures
        grid_view(&copy) == grid_view(board),
{
    let mut copy: Vec<Vec<Option<Piece>>> = Vec::new();
    let mut i: usize = 0;
    while i < board.len()
        invariant
            i <= board.len(),
            copy@.len() == i,
            forall|r: int| 0 <= r < i ==> (#[trigger] copy@[r])@ == board@[r]@,
        decreases board.len() - i,
    {
        let source = &board[i];
        let mut row: Vec<Option<Piece>> = Vec::new();
        let mut j: usize = 0;
        while j < source.len()
            invariant
                j <= source.len(),
                row@ == source@.take(j as int),
            decreases source.len() - j,
        {
            row.push(source[j]);
            j += 1;
        }
        copy.push(row);
        i += 1;
    }
    assert(grid_view(&copy) =~= grid_view(board));
    copy
}

/// The pieces of a game on their squares: a grid of cells whose size never changes.
pub struct Board {
    board: Vec<Vec<Option<Piece>>>,
}

impl View for Board {
    type V = Seq<Seq<Option<Piece>>>;

    closed spec fn view(&self) -> Seq<Seq<Option<Piece>>> {
        grid_view(&self.board)
    }
}

impl Board {
    /// A board of the configured size with the configured pieces on it. Where two placements
    /// name one square, the later one stays.
    pub fn new(config: &BoardConfig) -> (board: Board)
        requires
            config_fits(config),
        ensures
            board@ == placed_grid(
                config.pieces@,
                config.pieces@.len(),
                config.rows as nat,
                config.columns as nat,
            ),
    {
        let mut board: Vec<Vec<Option<Piece>>> = Vec::new();
        let mut i: usize = 0;
        while i < config.rows
            invariant
                i <= config.rows,
                board@.len() == i,
                forall|r: int| 0 <= r < i ==> (#[trigger] board@[r])@ == empty_row(config.columns as nat),
            decreases config.rows - i,
        {
            let mut row: Vec<Option<Piece>> = Vec::new();
            let mut j: usize = 0;
            while j < config.columns
                invariant
                    j <= config.columns,
                    row@ == empty_row(j as nat),
                decreases config.columns - j,
            {
                row.push(None);
                j += 1;
            }
            board.push(row);
            i += 1;
        }
        assert(grid_view(&board) =~~= placed_grid(config.pieces@, 0, config.rows as nat, config.columns as nat));
        let mut k: usize = 0;
        while k < config.pieces.len()
            invariant
                k <= config.pieces.len(),
                config_fits(config),
                grid_view(&board) == placed_grid(
                    config.pieces@,
                    k as nat,
                    config.rows as nat,
                    config.columns as nat,
                ),
            decreases config.pieces.len() - k,
        {
            let placement = &config.pieces[k];
            let piece = piece_from_name(&placement.piece, placement.white);
            let ghost before = grid_view(&board);
            assert(placement_fits(config.pieces@[k as int], config.rows as int, config.columns as int));
            assert(before.len() == config.rows);
            assert(before[placement.row as int].len() == config.columns);
            assert(board@[placement.row as int]@ == before[placement.row as int]);
            board[placement.row][placement.column] = piece;
            assert(grid_view(&board) =~= placed_grid(
                config.pieces@,
                (k + 1) as nat,
                config.rows as nat,
                config.columns as nat,
            )) by {
                let after = grid_view(&board);
                let target = placed_grid(config.pieces@, (k + 1) as nat, config.rows as nat, config.columns as nat);
                assert(after.len() == target.len());
                assert forall|r: int| 0 <= r < after.len() implies after[r] =~= target[r] by {
                    assert(before[r].len() == config.columns);
                }
            }
            k += 1;
        }
        Board { board }
    }

    /// Moves what stands on `current_position` to `new_position`, replacing what stood there,
    /// and returns a copy of the cells.
    pub fn move_piece(&mut self, current_position: &Position, new_position: &Position) -> (cells: Vec<
        Vec<Option<Piece>>,
    >)
        requires
            on_board(old(self)@, *current_position),
            on_board(old(self)@, *new_position),
        ensures
            final(self)@ == with_move(old(self)@, *current_position, *new_position),
            grid_view(&cells) == final(self)@,
    {
        let chess_piece = self.board[current_position.row][current_position.column];
        self.board[current_position.row][current_position.column] = None;
        assert(grid_view(&self.board) =~= with_cell(old(self)@, *current_position, None));
        self.board[new_position.row][new_position.column] = chess_piece;
        assert(grid_view(&self.board) =~= with_move(old(self)@, *current_position, *new_position));
        self.get_current_board()
    }

    /// Puts `piece`, or nothing, on `position` and returns a copy of the cells.
    pub fn set_position(&mut self, position: &Position, piece: Option<Piece>) -> (cells: Vec<
        Vec<Option<Piece>>,
    >)
        requires
            on_board(old(self)@, *position),
        ensures
            final(self)@ == with_cell(old(self)@, *position, piece),
            grid_view(&cells) == final(self)@,
    {
        self.board[position.row][position.column] = piece;
        assert(grid_view(&self.board) =~= with_cell(old(self)@, *position, piece));
        self.get_current_board()
    }

    /// Empties `position` and returns a copy of the cells.
    pub fn clear_position(&mut self, position: &Position) -> (cells: Vec<Vec<Option<Piece>>>)
        requires
            on_board(old(self)@, *position),
        ensures
            final(self)@ == with_cell(old(self)@, *position, None),
            grid_view(&cells) == final(self)@,
    {
        self.board[position.row][position.column] = None;
        assert(grid_view(&self.board) =~= with_cell(old(self)@, *position, None));
        self.get_current_board()
    }

    /// Returns a copy of the cells as they stand.
    pub fn get_current_board(&mut self) -> (cells: Vec<Vec<Option<Piece>>>)
        ensures
            final(self)@ == old(self)@,
            grid_view(&cells) == old(self)@,
    {
        copy_grid(&self.board)
    }

    /// The cells of a board are a grid that a board can hold.
    pub proof fn lemma_view_is_board(&self)
        ensures
            is_board(self@),
    {
        lemma_grid_view_is_board(&self.board);
    }

    /// The cells as they stand.
    pub fn cells(&self) -> (cells: &Vec<Vec<Option<Piece>>>)
        ensures
            grid_view(cells) == self@,
    {
        &self.board
    }
}

} // verus!
