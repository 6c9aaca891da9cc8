use vstd::prelude::*;

verus! {

/// A chess piece: its kind, and `true` for white or `false` for black.
#[derive(Clone, Copy, Debug, PartialEq, Eq, Structural)]
pub enum Piece {
    Bishop(bool),
    King(bool),
    Knight(bool),
    Pawn(bool),
    Queen(bool),
    Rook(bool),
}

impl Piece {
    pub open spec fn spec_is_king(&self) -> bool {
        *self is King
    }

    pub open spec fn spec_is_white(&self) -> bool {
        match *self {
            Piece::Bishop(w) => w,
            Piece::King(w) => w,
            Piece::Knight(w) => w,
            Piece::Pawn(w) => w,
            Piece::Queen(w) => w,
            Piece::Rook(w) => w,
        }
    }

    #[verifier::when_used_as_spec(spec_is_king)]
    pub fn is_king(&self) -> (r: bool)
        ensures
            r == self.spec_is_king(),
    {
        match self {
            Piece::King(_) => true,
            _ => false,
        }
    }

    #[verifier::when_used_as_spec(spec_is_white)]
    pub fn is_white(&self) -> (r: bool)
        ensures
            r == self.spec_is_white(),
    {
        match self {
            Piece::Bishop(is_white) => *is_white,
            Piece::King(is_white) => *is_white,
            Piece::Knight(is_white) => *is_white,
            Piece::Pawn(is_white) => *is_white,
            Piece::Queen(is_white) => *is_white,
            Piece::Rook(is_white) => *is_white,
        }
    }
}

/// The piece that a promotion letter stands for: `B`, `N`, `Q` or `R`, and nothing else.
pub open spec fn promotion_piece(id: Seq<char>, is_white: bool) -> Option<Piece> {
    if id =~= seq!['B'] {
        Some(Piece::Bishop(is_white))
    } else if id =~= seq!['N'] {
        Some(Piece::Knight(is_white))
    } else if id =~= seq!['Q'] {
        Some(Piece::Queen(is_white))
    } else if id =~= seq!['R'] {
        Some(Piece::Rook(is_white))
    } else {
        None
    }
}

/// Returns a new piece of the given colour for a promotion letter.
pub fn get_promotion_piece(promotion_id: &String, is_white: bool) -> (r: Option<Piece>)
    ensures
        r == promotion_piece(promotion_id@, is_white),
{
    let id = promotion_id.as_str();
    if id.unicode_len() != 1 {
        return None;
    }
    let letter: char = id.get_char(0);
    assert(promotion_id@ =~= seq![letter]);
    if letter == 'B' {
        Some(Piece::Bishop(is_white))
    } else if letter == 'N' {
        Some(Piece::Knight(is_white))
    } else if letter == 'Q' {
        Some(Piece::Queen(is_white))
    } else if letter == 'R' {
        Some(Piece::Rook(is_white))
    } else {
        assert(seq!['B'][0] == 'B' && seq!['N'][0] == 'N' && seq!['Q'][0] == 'Q' && seq!['R'][0] == 'R');
        None
    }
}

} // verus!
