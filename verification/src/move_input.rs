//! Moves as they are typed: four numbers separated by commas.

use vstd::prelude::*;
use vstd::string::*;
use crate::piece_move::{move_view, PieceMove, PieceMoveView};
use crate::position::Position;

verus! {

/// Whether a character is a decimal digit.
pub open spec fn is_digit(c: char) -> bool {
    '0' <= c <= '9'
}

/// The value of a decimal digit.
pub open spec fn digit_value(c: char) -> int {
    c as u32 - '0' as u32
}

/// The number that a row of decimal digits stands for.
pub open spec fn number_value(digits: Seq<char>) -> int
    decreases digits.len(),
{
    if digits.len() == 0 {
        0
    } else {
        10 * number_value(digits.drop_last()) + digit_value(digits.last())
    }
}

/// Whether every character of a text is a decimal digit.
pub open spec fn all_digits(text: Seq<char>) -> bool {
    forall|i: int| 0 <= i < text.len() ==> is_digit(#[trigger] text[i])
}

/// The number that a field stands for: the field is one decimal digit or more and nothing
/// else, and the number is one that a coordinate can hold.
pub open spec fn field_number(field: Seq<char>) -> Option<usize> {
    if field.len() > 0 && all_digits(field) && number_value(field) <= usize::MAX {
        Some(number_value(field) as usize)
    } else {
        None
    }
}

/// The fields of a text: the parts between its commas, in order. A text without a comma is
/// one field.
pub open spec fn fields(text: Seq<char>) -> Seq<Seq<char>>
    decreases text.len(),
{
    if text.len() == 0 {
        seq![Seq::empty()]
    } else {
        let before = fields(text.drop_last());
        if text.last() == ',' {
            before.push(Seq::empty())
        } else {
            before.update(before.len() - 1, before.last().push(text.last()))
        }
    }
}

/// The move that a text stands for: the text has four fields, each of them a number, which
/// are the row and the column of the square the move starts from and the row and the column of
/// the square it ends on.
pub open spec fn typed_move(text: Seq<char>) -> Option<PieceMoveView> {
    let parts = fields(text);
    if parts.len() == 4 && field_number(parts[0]) is Some && field_number(parts[1]) is Some && field_number(
        parts[2],
    ) is Some && field_number(parts[3]) is Some {
        Some(
            PieceMoveView {
                start: Position { row: field_number(parts[0]).unwrap(), column: field_number(parts[1]).unwrap() },
                end: Position { row: field_number(parts[2]).unwrap(), column: field_number(parts[3]).unwrap() },
                promotion: None,
            },
        )
    } else {
        None
    }
}

/// A text has at least one field.
proof fn lemma_fields_not_empty(text: Seq<char>)
    ensures
        fields(text).len() >= 1,
    decreases text.len(),
{
    if text.len() > 0 {
        lemma_fields_not_empty(text.drop_last());
    }
}

/// A number does not get smaller when a digit is added to it.
proof fn lemma_number_value_grows(digits: Seq<char>, c: char)
    requires
        all_digits(digits),
        is_digit(c),
    ensures
        0 <= number_value(digits) <= number_value(digits.push(c)),
    decreases digits.len(),
{
    assert(digits.push(c).drop_last() =~= digits);
    if digits.len() > 0 {
        assert(all_digits(digits.drop_last())) by {
            assert forall|i: int| 0 <= i < digits.drop_last().len() implies is_digit(
                #[trigger] digits.drop_last()[i],
            ) by {
                assert(is_digit(digits[i]));
            }
        }
        assert(is_digit(digits[digits.len() - 1]));
        lemma_number_value_grows(digits.drop_last(), digits.last());
        assert(digits.drop_last().push(digits.last()) =~= digits);
    }
}

/// The numbers of the fields of the text read so far, and what has been read of the field
/// that is not yet complete.
struct Reading {
    /// The numbers of the complete fields, as long as each of them is a number.
    numbers: Vec<usize>,
    /// Whether every complete field is a number.
    complete_are_numbers: bool,
    /// The number of complete fields, as far as it is below five.
    complete: usize,
    /// The number of the field that is being read, as long as it is one.
    current: usize,
    /// Whether the field that is being read holds digits only, standing for a number that a
    /// coordinate can hold.
    current_is_number: bool,
    /// Whether the field that is being read holds a character.
    current_has_digits: bool,
}

/// Whether a reading is that of a text.
spec fn reads(reading: Reading, text: Seq<char>) -> bool {
    let parts = fields(text);
    let last = parts.last();
    &&& parts.len() >= 1
    &&& reading.complete == if parts.len() - 1 < 5 {
        parts.len() - 1
    } else {
        5
    }
    &&& reading.complete_are_numbers == forall|i: int|
        0 <= i < parts.len() - 1 ==> field_number(#[trigger] parts[i]) is Some
    &&& reading.complete_are_numbers && reading.complete < 5 ==> reading.numbers@.len() == parts.len() - 1
        && forall|i: int|
        0 <= i < parts.len() - 1 ==> Some(#[trigger] reading.numbers@[i]) == field_number(parts[i])
    &&& reading.current_has_digits == (last.len() > 0)
    &&& reading.current_is_number == (all_digits(last) && number_value(last) <= usize::MAX)
    &&& reading.current_is_number ==> reading.current == number_value(last)
}

/// Reads a move from a text: four numbers separated by commas, the row and the column of the
/// square the move starts from and the row and the column of the square it ends on. Any other
/// text stands for no move.
pub fn parse_move(input: &str) -> (piece_move: Option<PieceMove>)
    ensures
        move_view(piece_move) == typed_move(input@),
{
    let length = input.unicode_len();
    let mut reading = Reading {
        numbers: Vec::new(),
        complete_are_numbers: true,
        complete: 0,
        current: 0,
        current_is_number: true,
        current_has_digits: false,
    };
    let ghost text = input@;
    assert(text.take(0) =~= Seq::<char>::empty());
    assert(fields(Seq::<char>::empty()) =~= seq![Seq::<char>::empty()]);
    let mut i: usize = 0;
    while i < length
        invariant
            i <= length,
            length == text.len(),
            text == input@,
            reads(reading, text.take(i as int)),
        decreases length - i,
    {
        let c = input.get_char(i);
        let ghost before = text.take(i as int);
        let ghost after = text.take(i + 1);
        let ghost parts = fields(before);
        proof {
            assert(after.drop_last() =~= before);
            assert(after.last() == c);
            lemma_fields_not_empty(before);
        }
        if c == ',' {
            let is_number = reading.current_is_number && reading.current_has_digits;
            if reading.complete < 5 {
                if reading.complete_are_numbers && is_number {
                    reading.numbers.push(reading.current);
                }
                reading.complete += 1;
            }
            reading.complete_are_numbers = reading.complete_are_numbers && is_number;
            reading.current = 0;
            reading.current_is_number = true;
            reading.current_has_digits = false;
            proof {
                let now = fields(after);
                assert(now == parts.push(Seq::<char>::empty()));
                assert(is_number == (field_number(parts.last()) is Some));
                assert forall|j: int| 0 <= j < now.len() - 1 implies now[j] == parts[j] by {}
                if reading.complete_are_numbers {
                    assert forall|j: int| 0 <= j < now.len() - 1 implies field_number(#[trigger] now[j]) is Some by {
                        assert(now[j] == parts[j]);
                    }
                } else {
                    if field_number(parts.last()) is None {
                        assert(now[parts.len() - 1] == parts.last());
                    } else {
                        let j = choose|j: int| 0 <= j < parts.len() - 1 && !(field_number(#[trigger] parts[j]) is Some);
                        assert(now[j] == parts[j]);
                    }
                }
            }
        } else {
            let ghost last = parts.last();
            proof {
                let now = fields(after);
                assert(now == parts.update(parts.len() - 1, last.push(c)));
                assert(last.push(c).drop_last() =~= last);
                assert forall|j: int| 0 <= j < now.len() - 1 implies now[j] == parts[j] by {}
                if all_digits(last) && is_digit(c) {
                    lemma_number_value_grows(last, c);
                }
                if all_digits(last.push(c)) {
                    assert forall|j: int| 0 <= j < last.len() implies is_digit(#[trigger] last[j]) by {
                        assert(last.push(c)[j] == last[j]);
                    }
                    assert(last.push(c)[last.len() as int] == c);
                }
            }
            reading.current_has_digits = true;
            if reading.current_is_number && '0' <= c && c <= '9' {
                let digit: usize = (c as u32 - '0' as u32) as usize;
                if reading.current <= (usize::MAX - digit) / 10 {
                    reading.current = 10 * reading.current + digit;
                } else {
                    reading.current_is_number = false;
                }
            } else {
                reading.current_is_number = false;
            }
        }
        i += 1;
    }
    assert(text.take(i as int) =~= text);
    if reading.complete == 3 && reading.complete_are_numbers && reading.current_is_number
        && reading.current_has_digits {
        Some(
            PieceMove {
                start: Position { row: reading.numbers[0], column: reading.numbers[1] },
                end: Position { row: reading.numbers[2], column: reading.current },
                promotion: None,
            },
        )
    } else {
        None
    }
}

} // verus!
