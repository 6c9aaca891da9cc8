use chess::move_input::parse_move;
use chess::pieces::piece::Piece;
use chess::position::Position;
use chess::render::{cell_as_text, render_bare_board, render_board, row_number_as_text};

#[test]
fn four_numbers_are_a_move() {
    let piece_move = parse_move("1,4,3,4").unwrap();
    assert_eq!(piece_move.start, Position { row: 1, column: 4 });
    assert_eq!(piece_move.end, Position { row: 3, column: 4 });
    assert!(piece_move.promotion.is_none());

    let piece_move = parse_move("007,10,0,123456").unwrap();
    assert_eq!(piece_move.start, Position { row: 7, column: 10 });
    assert_eq!(piece_move.end, Position { row: 0, column: 123456 });
}

#[test]
fn any_other_text_is_no_move() {
    assert!(parse_move("").is_none());
    assert!(parse_move("1,4,3").is_none());
    assert!(parse_move("1,4,3,4,5").is_none());
    assert!(parse_move("1,4,3,4,").is_none());
    assert!(parse_move(",1,4,3").is_none());
    assert!(parse_move("1,,3,4").is_none());
    assert!(parse_move("a,b,c,d").is_none());
    assert!(parse_move("1,4,3,x").is_none());
    assert!(parse_move(" 1,4,3,4").is_none());
    assert!(parse_move("1,4,3,-4").is_none());
    assert!(parse_move("1,4,3,4e").is_none());
    assert!(parse_move("1,2,3,99999999999999999999999999").is_none());
    assert!(parse_move("99999999999999999999999999,2,3,4").is_none());
    assert!(parse_move("1,2,3,4,5,6,7,8,9").is_none());
}

#[test]
fn the_largest_coordinate_is_read() {
    let text = format!("0,0,0,{}", usize::MAX);
    assert_eq!(parse_move(&text).unwrap().end.column, usize::MAX);
    let text = format!("0,0,0,{}0", usize::MAX);
    assert!(parse_move(&text).is_none());
}

#[test]
fn cells_and_row_numbers_as_text() {
    assert_eq!(cell_as_text(&Some(Piece::Knight(true)), false), "wN ");
    assert_eq!(cell_as_text(&Some(Piece::King(false)), false), "bK ");
    assert_eq!(cell_as_text(&None, false), "-- ");
    assert_eq!(cell_as_text(&Some(Piece::Queen(true)), true), "♕ ");
    assert_eq!(cell_as_text(&Some(Piece::Rook(false)), true), "♜ ");
    assert_eq!(cell_as_text(&None, true), "- ");
    assert_eq!(row_number_as_text(0), "0");
    assert_eq!(row_number_as_text(9), "9");
    assert_eq!(row_number_as_text(10), " ");
}

#[test]
fn a_board_in_letters() {
    let cells = vec![
        vec![Some(Piece::King(true)), None],
        vec![None, Some(Piece::Pawn(false))],
    ];
    assert_eq!(
        render_board(&cells, false),
        "    0  1  2  3  4  5  6  7\n1  -- bP  1\n0  wK --  0\n    0  1  2  3  4  5  6  7\n\n#################################\n\n"
    );
    assert_eq!(render_bare_board(&cells), "-- bP \nwK -- \n");
}

#[test]
fn a_board_in_figures() {
    let cells = vec![vec![Some(Piece::Bishop(true)), None, Some(Piece::Queen(false))]];
    assert_eq!(
        render_board(&cells, true),
        "   0 1 2 3 4 5 6 7\n0  ♗ - ♛  0\n   0 1 2 3 4 5 6 7\n\n#################################\n\n"
    );
    assert_eq!(render_bare_board(&Vec::new()), "");
}
