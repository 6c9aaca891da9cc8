use vstd::prelude::*;
use crate::position::Position;

verus! {

/// What one piece can do from where it stands, before the safety of any king is considered.
#[derive(Debug)]
pub struct MoveData {
    /// The square of the piece.
    pub position: Position,
    /// The squares the piece can move to, captures included.
    pub valid_moves: Vec<Position>,
    /// The squares the piece threatens.
    pub attacks: Vec<Position>,
    /// The squares of friendly pieces that the piece guards.
    pub defends: Vec<Position>,
    /// The squares of opposing pieces that the piece pins to their king.
    pub pins: Vec<Position>,
    /// The squares between the piece and the opposing king, when the piece gives check.
    pub checking_path: Option<Vec<Position>>,
}

/// The mathematical content of a [`MoveData`].
pub struct MoveDataView {
    pub position: Position,
    pub valid_moves: Seq<Position>,
    pub attacks: Seq<Position>,
    pub defends: Seq<Position>,
    pub pins: Seq<Position>,
    pub checking_path: Option<Seq<Position>>,
}

/// The squares of an optional path.
pub open spec fn path_view(path: Option<Vec<Position>>) -> Option<Seq<Position>> {
    match path {
        Some(squares) => Some(squares@),
        None => None,
    }
}

impl View for MoveData {
    type V = MoveDataView;

    open spec fn view(&self) -> MoveDataView {
        MoveDataView {
            position: self.position,
            valid_moves: self.valid_moves@,
            attacks: self.attacks@,
            defends: self.defends@,
            pins: self.pins@,
            checking_path: path_view(self.checking_path),
        }
    }
}

/// The move data of a piece on `position` that can do nothing.
pub open spec fn no_moves(position: Position) -> MoveDataView {
    MoveDataView {
        position,
        valid_moves: Seq::empty(),
        attacks: Seq::empty(),
        defends: Seq::empty(),
        pins: Seq::empty(),
        checking_path: None,
    }
}

} // verus!
