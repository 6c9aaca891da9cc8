use vstd::prelude::*;
use crate::position::Position;

verus! {

/// A move: the square a piece leaves, the square it goes to, and the letter of the piece a
/// pawn is promoted to, where the move asks for one.
#[derive(Debug)]
pub struct PieceMove {
    pub start: Position,
    pub end: Position,
    pub promotion: Option<String>,
}

/// The mathematical content of a [`PieceMove`].
pub struct PieceMoveView {
    pub start: Position,
    pub end: Position,
    pub promotion: Option<Seq<char>>,
}

impl View for PieceMove {
    type V = PieceMoveView;

    open spec fn view(&self) -> PieceMoveView {
        PieceMoveView {
            start: self.start,
            end: self.end,
            promotion: match self.promotion {
                Some(letter) => Some(letter@),
                None => None,
            },
        }
    }
}

/// The content of an optional move.
pub open spec fn move_view(piece_move: Option<PieceMove>) -> Option<PieceMoveView> {
    match piece_move {
        Some(m) => Some(m@),
        None => None,
    }
}

impl Clone for PieceMove {
    fn clone(&self) -> (copy: PieceMove)
        ensures
            copy == *self,
    {
        PieceMove {
            start: self.start,
            end: self.end,
            promotion: match &self.promotion {
                Some(letter) => Some(letter.clone()),
                None => None,
            },
        }
    }
}

} // verus!
