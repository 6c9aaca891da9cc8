use vstd::prelude::*;
use vstd::string::*;

verus! {

/// One piece of the initial placement: its kind by name, its colour and its square.
#[derive(Debug)]
pub struct PieceConfig {
    pub piece: String,
    pub white: bool,
    pub row: usize,
    pub column: usize,
}

/// The initial placement and the dimensions of the board.
#[derive(Debug)]
pub struct BoardConfig {
    pub pieces: Vec<PieceConfig>,
    pub rows: usize,
    pub columns: usize,
}

/// Everything a game starts from.
#[derive(Debug)]
pub struct GameConfig {
    pub initial_board: BoardConfig,
    pub white_long_castle: bool,
    pub white_short_castle: bool,
    pub black_long_castle: bool,
    pub black_short_castle: bool,
    pub white_turn: bool,
}

/// The name of the piece that stands in the given column of a back row at the start of a game.
pub open spec fn back_row_name(column: int) -> Seq<char> {
    if column == 0 || column == 7 {
        "rook"@
    } else if column == 1 || column == 6 {
        "knight"@
    } else if column == 2 || column == 5 {
        "bishop"@
    } else if column == 3 {
        "queen"@
    } else {
        "king"@
    }
}

/// Whether a placement is the one with the given number in the starting position of a game:
/// the white pawns come first, then the white pieces, the black pawns and the black pieces,
/// each row from the first column to the eighth.
pub open spec fn is_starting_placement(placement: PieceConfig, number: int) -> bool {
    let group = number / 8;
    let column = number % 8;
    &&& placement.column == column
    &&& placement.white == (group < 2)
    &&& placement.row == (if group == 0 {
        1int
    } else if group == 1 {
        0int
    } else if group == 2 {
        6int
    } else {
        7int
    })
    &&& placement.piece@ == (if group == 0 || group == 2 {
        "pawn"@
    } else {
        back_row_name(column)
    })
}

/// Whether the placements are those of the starting position of a game.
pub open spec fn is_starting_position(pieces: Seq<PieceConfig>) -> bool {
    &&& pieces.len() == 32
    &&& forall|number: int| 0 <= number < 32 ==> is_starting_placement(#[trigger] pieces[number], number)
}

/// The name of the piece that stands in the given column of a back row at the start of a game.
fn back_row_piece(column: usize) -> (name: String)
    requires
        column < 8,
    ensures
        name@ == back_row_name(column as int),
{
    if column == 0 || column == 7 {
        String::from_str("rook")
    } else if column == 1 || column == 6 {
        String::from_str("knight")
    } else if column == 2 || column == 5 {
        String::from_str("bishop")
    } else if column == 3 {
        String::from_str("queen")
    } else {
        String::from_str("king")
    }
}

/// The configuration of a game of chess as it is usually played: the starting position on a
/// board of eight rows and eight columns, every right to castle, and white to move.
pub fn default_config() -> (config: GameConfig)
    ensures
        is_starting_position(config.initial_board.pieces@),
        config.initial_board.rows == 8,
        config.initial_board.columns == 8,
        config.white_long_castle && config.white_short_castle,
        config.black_long_castle && config.black_short_castle,
        config.white_turn,
{
    let mut pieces: Vec<PieceConfig> = Vec::new();
    let mut group: usize = 0;
    while group < 4
        invariant
            group <= 4,
            pieces@.len() == 8 * group,
            forall|number: int|
                0 <= number < pieces@.len() ==> is_starting_placement(#[trigger] pieces@[number], number),
        decreases 4 - group,
    {
        let white = group < 2;
        let row: usize = if group == 0 {
            1
        } else if group == 1 {
            0
        } else if group == 2 {
            6
        } else {
            7
        };
        let mut column: usize = 0;
        while column < 8
            invariant
                group < 4,
                column <= 8,
                white == (group < 2),
                row == (if group == 0 {
                    1int
                } else if group == 1 {
                    0int
                } else if group == 2 {
                    6int
                } else {
                    7int
                }),
                pieces@.len() == 8 * group + column,
                forall|number: int|
                    0 <= number < pieces@.len() ==> is_starting_placement(#[trigger] pieces@[number], number),
            decreases 8 - column,
        {
            let piece = if group == 0 || group == 2 {
                String::from_str("pawn")
            } else {
                back_row_piece(column)
            };
            pieces.push(PieceConfig { piece, white, column, row });
            column += 1;
        }
        group += 1;
    }

    GameConfig {
        initial_board: BoardConfig { pieces, rows: 8, columns: 8 },
        white_long_castle: true,
        white_short_castle: true,
        black_long_castle: true,
        black_short_castle: true,
        white_turn: true,
    }
}

} // verus!
