use vstd::prelude::*;
use crate::square::Square;

verus! {

/// A kind of chess piece.
#[derive(Clone, Copy, Debug, PartialEq, Eq, Structural)]
pub enum Piece {
    Pawn,
    Knight,
    Bishop,
    Rook,
    Queen,
    King,
}

/// The piece whose ordinal is `i`, for `i` in `0..6`, in ascending order of
/// conventional value with the king last.
pub open spec fn piece_from_index(i: int) -> Piece {
    if i == 0 {
        Piece::Pawn
    } else if i == 1 {
        Piece::Knight
    } else if i == 2 {
        Piece::Bishop
    } else if i == 3 {
        Piece::Rook
    } else if i == 4 {
        Piece::Queen
    } else {
        Piece::King
    }
}

impl Piece {
    /// The ordinal of this piece kind, `0..6`.
    pub open spec fn index_spec(self) -> int {
        match self {
            Piece::Pawn => 0,
            Piece::Knight => 1,
            Piece::Bishop => 2,
            Piece::Rook => 3,
            Piece::Queen => 4,
            Piece::King => 5,
        }
    }

    /// The piece kind of ordinal `i`, absent when `i` is out of range.
    pub fn try_index(i: usize) -> (r: Option<Piece>)
        ensures
            r == (if i < 6 {
                Some(piece_from_index(i as int))
            } else {
                None::<Piece>
            }),
    {
        match i {
            0 => Some(Piece::Pawn),
            1 => Some(Piece::Knight),
            2 => Some(Piece::Bishop),
            3 => Some(Piece::Rook),
            4 => Some(Piece::Queen),
            5 => Some(Piece::King),
            _ => None,
        }
    }
}

/// A piece kind a pawn may promote to.
#[derive(Clone, Copy, Debug, PartialEq, Eq, Structural)]
pub enum Promotion {
    Queen,
    Knight,
    Rook,
    Bishop,
}

impl Promotion {
    /// The piece that this promotion choice yields.
    pub open spec fn piece_spec(self) -> Piece {
        match self {
            Promotion::Queen => Piece::Queen,
            Promotion::Knight => Piece::Knight,
            Promotion::Rook => Piece::Rook,
            Promotion::Bishop => Piece::Bishop,
        }
    }

    pub fn piece(&self) -> (r: Piece)
        ensures
            r == self.piece_spec(),
    {
        match self {
            Promotion::Queen => Piece::Queen,
            Promotion::Knight => Piece::Knight,
            Promotion::Rook => Piece::Rook,
            Promotion::Bishop => Piece::Bishop,
        }
    }
}

/// The state of a game: still running, won by the side that just moved, or
/// drawn.
#[derive(Clone, Copy, Debug, PartialEq, Eq, Structural)]
pub enum GameStatus {
    Ongoing,
    Won,
    Drawn,
}

/// A move from one square to another, with the piece a pawn promotes to when
/// the move is a promotion. Moves are plain values; equality is structural.
#[derive(Clone, Copy, Debug)]
pub struct Move {
    pub from: Square,
    pub to: Square,
    pub promotion: Option<Piece>,
}

impl PartialEq for Move {
    fn eq(&self, other: &Move) -> (r: bool) {
        let promo_eq = match (self.promotion, other.promotion) {
            (Option::None, Option::None) => true,
            (Option::Some(a), Option::Some(b)) => a == b,
            _ => false,
        };
        self.from == other.from && self.to == other.to && promo_eq
    }
}

impl Eq for Move {

}

impl vstd::std_specs::cmp::PartialEqSpecImpl for Move {
    open spec fn obeys_eq_spec() -> bool {
        true
    }

    open spec fn eq_spec(&self, other: &Move) -> bool {
        self.from == other.from && self.to == other.to && self.promotion == other.promotion
    }
}

} // verus!
