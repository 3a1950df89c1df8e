use vstd::prelude::*;
use crate::square::Square;

verus! {

/// The two sides. White moves up the board (increasing rows), black down.
#[derive(Clone, Copy, PartialEq, Eq, Structural, Debug)]
pub enum Color {
    White,
    Black,
}

impl Color {
    /// The other side.
    pub open spec fn opposite_spec(self) -> Color {
        match self {
            Color::White => Color::Black,
            Color::Black => Color::White,
        }
    }

    pub fn opposite(self) -> (r: Self)
        ensures
            r == self.opposite_spec(),
    {
        match self {
            Color::White => Color::Black,
            Color::Black => Color::White,
        }
    }

    /// Evaluation sign: +1 for white, -1 for black, so that one signed score
    /// can serve both sides.
    pub open spec fn sign_spec(self) -> int {
        match self {
            Color::White => 1,
            Color::Black => -1,
        }
    }

    pub fn sign(self) -> (r: i32)
        ensures
            r == self.sign_spec(),
    {
        match self {
            Color::White => 1,
            Color::Black => -1,
        }
    }

    pub open spec fn index_spec(self) -> int {
        match self {
            Color::White => 0,
            Color::Black => 1,
        }
    }

    pub fn index(self) -> (r: usize)
        ensures
            r == self.index_spec(),
    {
        match self {
            Color::White => 0,
            Color::Black => 1,
        }
    }

    /// This side's king piece.
    pub open spec fn king_spec(self) -> Square {
        match self {
            Color::White => Square::WKing,
            Color::Black => Square::BKing,
        }
    }

    pub fn king(self) -> (r: Square)
        ensures
            r == self.king_spec(),
    {
        match self {
            Color::White => Square::WKing,
            Color::Black => Square::BKing,
        }
    }
}

} // verus!
