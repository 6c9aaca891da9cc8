//! The board as text, for whoever shows a game at a terminal.

use vstd::prelude::*;
use vstd::string::*;
use crate::board::grid_view;
use crate::pieces::piece::Piece;

verus! {

/// A cell in letters: the colour of its piece, `w` or `b`, the letter of its kind and a
/// blank; two dashes and a blank where it is empty.
pub open spec fn cell_letters(cell: Option<Piece>) -> Seq<char> {
    match cell {
        Some(Piece::Bishop(true)) => "wB "@,
        Some(Piece::Bishop(false)) => "bB "@,
        Some(Piece::King(true)) => "wK "@,
        Some(Piece::King(false)) => "bK "@,
        Some(Piece::Knight(true)) => "wN "@,
        Some(Piece::Knight(false)) => "bN "@,
        Some(Piece::Pawn(true)) => "wP "@,
        Some(Piece::Pawn(false)) => "bP "@,
        Some(Piece::Queen(true)) => "wQ "@,
        Some(Piece::Queen(false)) => "bQ "@,
        Some(Piece::Rook(true)) => "wR "@,
        Some(Piece::Rook(false)) => "bR "@,
        None => "-- "@,
    }
}

/// A cell as a figure: the figure of its piece and a blank; a dash and a blank where it is
/// empty.
pub open spec fn cell_figure(cell: Option<Piece>) -> Seq<char> {
    match cell {
        Some(Piece::Bishop(true)) => "♗ "@,
        Some(Piece::Bishop(false)) => "♝ "@,
        Some(Piece::King(true)) => "♔ "@,
        Some(Piece::King(false)) => "♚ "@,
        Some(Piece::Knight(true)) => "♘ "@,
        Some(Piece::Knight(false)) => "♞ "@,
        Some(Piece::Pawn(true)) => "♙ "@,
        Some(Piece::Pawn(false)) => "♟︎ "@,
        Some(Piece::Queen(true)) => "♕ "@,
        Some(Piece::Queen(false)) => "♛ "@,
        Some(Piece::Rook(true)) => "♖ "@,
        Some(Piece::Rook(false)) => "♜ "@,
        None => "- "@,
    }
}

/// A cell as text, in figures or in letters.
pub open spec fn cell_text(cell: Option<Piece>, use_unicode: bool) -> Seq<char> {
    if use_unicode {
        cell_figure(cell)
    } else {
        cell_letters(cell)
    }
}

/// The first `count` cells of a row as text, from the left.
pub open spec fn cells_text(row: Seq<Option<Piece>>, count: nat, use_unicode: bool) -> Seq<char>
    decreases count,
{
    if count == 0 {
        Seq::empty()
    } else {
        cells_text(row, (count - 1) as nat, use_unicode) + cell_text(row[count - 1], use_unicode)
    }
}

/// The number of a row as text, for the first ten rows; a blank for any other.
pub open spec fn row_label(row: int) -> Seq<char> {
    if row == 0 {
        "0"@
    } else if row == 1 {
        "1"@
    } else if row == 2 {
        "2"@
    } else if row == 3 {
        "3"@
    } else if row == 4 {
        "4"@
    } else if row == 5 {
        "5"@
    } else if row == 6 {
        "6"@
    } else if row == 7 {
        "7"@
    } else if row == 8 {
        "8"@
    } else if row == 9 {
        "9"@
    } else {
        " "@
    }
}

/// The line that heads and ends a board in figures or in letters: the numbers of the columns.
pub open spec fn column_labels(use_unicode: bool) -> Seq<char> {
    if use_unicode {
        "   0 1 2 3 4 5 6 7\n"@
    } else {
        "    0  1  2  3  4  5  6  7\n"@
    }
}

/// A row as a line of text between its number, before and behind.
pub open spec fn row_line(row: Seq<Option<Piece>>, number: int, use_unicode: bool) -> Seq<char> {
    row_label(number) + "  "@ + cells_text(row, row.len(), use_unicode) + " "@ + row_label(number) + "\n"@
}

/// The last `count` rows of a board as lines of text, the last row first.
pub open spec fn rows_text(grid: Seq<Seq<Option<Piece>>>, count: nat, use_unicode: bool) -> Seq<char>
    decreases count,
{
    if count == 0 {
        Seq::empty()
    } else {
        rows_text(grid, (count - 1) as nat, use_unicode) + row_line(
            grid[grid.len() - count],
            grid.len() - count,
            use_unicode,
        )
    }
}

/// A board as text: the numbers of the columns, the rows from the last to the first, each
/// between its number, the numbers of the columns again, and a line of hashes between two
/// empty lines.
pub open spec fn board_text(grid: Seq<Seq<Option<Piece>>>, use_unicode: bool) -> Seq<char> {
    column_labels(use_unicode) + rows_text(grid, grid.len(), use_unicode) + column_labels(use_unicode) + "\n"@
        + "#################################\n"@ + "\n"@
}

/// The last `count` rows of a board as bare lines of text in letters, the last row first.
pub open spec fn bare_rows_text(grid: Seq<Seq<Option<Piece>>>, count: nat) -> Seq<char>
    decreases count,
{
    if count == 0 {
        Seq::empty()
    } else {
        bare_rows_text(grid, (count - 1) as nat) + cells_text(
            grid[grid.len() - count],
            grid[grid.len() - count].len(),
            false,
        ) + "\n"@
    }
}

/// A cell as text, in figures or in letters.
pub fn cell_as_text(cell: &Option<Piece>, use_unicode: bool) -> (text: &'static str)
    ensures
        text@ == cell_text(*cell, use_unicode),
{
    if use_unicode {
        match cell {
            Some(Piece::Bishop(true)) => "♗ ",
            Some(Piece::Bishop(false)) => "♝ ",
            Some(Piece::King(true)) => "♔ ",
            Some(Piece::King(false)) => "♚ ",
            Some(Piece::Knight(true)) => "♘ ",
            Some(Piece::Knight(false)) => "♞ ",
            Some(Piece::Pawn(true)) => "♙ ",
            Some(Piece::Pawn(false)) => "♟︎ ",
            Some(Piece::Queen(true)) => "♕ ",
            Some(Piece::Queen(false)) => "♛ ",
            Some(Piece::Rook(true)) => "♖ ",
            Some(Piece::Rook(false)) => "♜ ",
            None => "- ",
        }
    } else {
        match cell {
            Some(Piece::Bishop(true)) => "wB ",
            Some(Piece::Bishop(false)) => "bB ",
            Some(Piece::King(true)) => "wK ",
            Some(Piece::King(false)) => "bK ",
            Some(Piece::Knight(true)) => "wN ",
            Some(Piece::Knight(false)) => "bN ",
            Some(Piece::Pawn(true)) => "wP ",
            Some(Piece::Pawn(false)) => "bP ",
            Some(Piece::Queen(true)) => "wQ ",
            Some(Piece::Queen(false)) => "bQ ",
            Some(Piece::Rook(true)) => "wR ",
            Some(Piece::Rook(false)) => "bR ",
            None => "-- ",
        }
    }
}

/// The number of a row as text.
pub fn row_number_as_text(row: usize) -> (text: &'static str)
    ensures
        text@ == row_label(row as int),
{
    match row {
        0 => "0",
        1 => "1",
        2 => "2",
        3 => "3",
        4 => "4",
        5 => "5",
        6 => "6",
        7 => "7",
        8 => "8",
        9 => "9",
        _ => " ",
    }
}

/// Adds the cells of a row to a text, from the left.
fn add_cells(text: &mut String, row: &Vec<Option<Piece>>, use_unicode: bool)
    ensures
        final(text)@ == old(text)@ + cells_text(row@, row@.len(), use_unicode),
{
    let mut j: usize = 0;
    while j < row.len()
        invariant
            j <= row.len(),
            text@ == old(text)@ + cells_text(row@, j as nat, use_unicode),
        decreases row.len() - j,
    {
        text.append(cell_as_text(&row[j], use_unicode));
        j += 1;
    }
}

/// The board as text, in figures or in letters, with the numbers of its rows and columns.
pub fn render_board(board: &Vec<Vec<Option<Piece>>>, use_unicode: bool) -> (text: String)
    ensures
        text@ == board_text(grid_view(board), use_unicode),
{
    let ghost grid = grid_view(board);
    let labels = if use_unicode {
        "   0 1 2 3 4 5 6 7\n"
    } else {
        "    0  1  2  3  4  5  6  7\n"
    };
    let mut text = String::from_str(labels);
    let mut count: usize = 0;
    while count < board.len()
        invariant
            count <= board.len(),
            grid == grid_view(board),
            text@ == column_labels(use_unicode) + rows_text(grid, count as nat, use_unicode),
        decreases board.len() - count,
    {
        let row = board.len() - 1 - count;
        let label = row_number_as_text(row);
        assert(grid[row as int] == board@[row as int]@);
        let ghost before = text@;
        text.append(label);
        text.append("  ");
        add_cells(&mut text, &board[row], use_unicode);
        text.append(" ");
        text.append(label);
        text.append("\n");
        assert(text@ =~= before + row_line(grid[row as int], row as int, use_unicode));
        count += 1;
    }
    text.append(labels);
    text.append("\n");
    text.append("#################################\n");
    text.append("\n");
    text
}

/// The board as bare lines of text in letters, the last row first.
pub fn render_bare_board(board: &Vec<Vec<Option<Piece>>>) -> (text: String)
    ensures
        text@ == bare_rows_text(grid_view(board), grid_view(board).len()),
{
    let ghost grid = grid_view(board);
    proof {
        reveal_strlit("");
    }
    let mut text = String::from_str("");
    assert(text@ =~= Seq::<char>::empty());
    let mut count: usize = 0;
    while count < board.len()
        invariant
            count <= board.len(),
            grid == grid_view(board),
            text@ == bare_rows_text(grid, count as nat),
        decreases board.len() - count,
    {
        let row = board.len() - 1 - count;
        assert(grid[row as int] == board@[row as int]@);
        add_cells(&mut text, &board[row], false);
        text.append("\n");
        count += 1;
    }
    text
}

} // verus!
