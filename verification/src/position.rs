use vstd::prelude::*;

verus! {

/// A square of the board, by zero-based row and column.
#[derive(Clone, Copy, Debug, PartialEq, Eq, Hash, Structural)]
pub struct Position {
    pub row: usize,
    pub column: usize,
}

/// The square with the given coordinates, for coordinates that a board can have.
pub open spec fn square(row: int, column: int) -> Position {
    Position { row: row as usize, column: column as usize }
}

/// Whether `position` occurs in `positions`.
pub fn contains_position(positions: &Vec<Position>, position: &Position) -> (found: bool)
    ensures
        found == positions@.contains(*position),
{
    let mut i: usize = 0;
    while i < positions.len()
        invariant
            i <= positions.len(),
            forall|j: int| 0 <= j < i ==> positions@[j] != *position,
        decreases positions.len() - i,
    {
        if positions[i] == *position {
            return true;
        }
        i += 1;
    }
    false
}

/// A copy of `positions`.
pub fn copy_positions(positions: &Vec<Position>) -> (copy: Vec<Position>)
    ensures
        copy@ == positions@,
{
    let mut copy: Vec<Position> = Vec::new();
    let mut i: usize = 0;
    while i < positions.len()
        invariant
            i <= positions.len(),
            copy@ == positions@.take(i as int),
        decreases positions.len() - i,
    {
        copy.push(positions[i]);
        i += 1;
    }
    copy
}

/// Appends every square of `more` to `positions`, in order.
pub fn append_positions(positions: &mut Vec<Position>, more: &Vec<Position>)
    ensures
        final(positions)@ == old(positions)@ + more@,
{
    let mut i: usize = 0;
    while i < more.len()
        invariant
            i <= more.len(),
            positions@ == old(positions)@ + more@.take(i as int),
        decreases more.len() - i,
    {
        positions.push(more[i]);
        i += 1;
    }
}

} // verus!
