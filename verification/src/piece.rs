use vstd::prelude::*;
use crate::color::Color;

verus! {

/// Contents of a square on the dense array board: the same kinds as
/// `Square`, under the numbering that indexes the mask array.
#[derive(Clone, Copy, PartialEq, Eq, Structural, Debug)]
pub enum Piece {
    Empty,
    WPawn,
    WRook,
    WKnight,
    WBisshop,
    WQueen,
    WKing,
    BPawn,
    BRook,
    BKnight,
    BBisshop,
    BQueen,
    BKing,
    OffBoard,
}

impl Piece {
    pub open spec fn index_spec(self) -> int {
        match self {
            Piece::Empty => 0,
            Piece::WPawn => 1,
            Piece::WRook => 2,
            Piece::WKnight => 3,
            Piece::WBisshop => 4,
            Piece::WQueen => 5,
            Piece::WKing => 6,
            Piece::BPawn => 7,
            Piece::BRook => 8,
            Piece::BKnight => 9,
            Piece::BBisshop => 10,
            Piece::BQueen => 11,
            Piece::BKing => 12,
            Piece::OffBoard => 13,
        }
    }

    pub fn index(self) -> (r: usize)
        ensures
            r == self.index_spec(),
    {
        match self {
            Piece::Empty => 0,
            Piece::WPawn => 1,
            Piece::WRook => 2,
            Piece::WKnight => 3,
            Piece::WBisshop => 4,
            Piece::WQueen => 5,
            Piece::WKing => 6,
            Piece::BPawn => 7,
            Piece::BRook => 8,
            Piece::BKnight => 9,
            Piece::BBisshop => 10,
            Piece::BQueen => 11,
            Piece::BKing => 12,
            Piece::OffBoard => 13,
        }
    }

    pub fn is_empty(self) -> (r: bool)
        ensures
            r == (self == Piece::Empty),
    {
        self == Piece::Empty
    }

    pub fn is_valid(self) -> (r: bool)
        ensures
            r == (self != Piece::OffBoard),
    {
        self != Piece::OffBoard
    }

    pub open spec fn color_spec(self) -> Option<Color> {
        if 1 <= self.index_spec() <= 6 {
            Some(Color::White)
        } else if 7 <= self.index_spec() <= 12 {
            Some(Color::Black)
        } else {
            None
        }
    }

    pub fn color(self) -> (r: Option<Color>)
        ensures
            r == self.color_spec(),
    {
        match self {
            Piece::WPawn | Piece::WRook | Piece::WKnight | Piece::WBisshop | Piece::WQueen
            | Piece::WKing => Some(Color::White),
            Piece::BPawn | Piece::BRook | Piece::BKnight | Piece::BBisshop | Piece::BQueen
            | Piece::BKing => Some(Color::Black),
            _ => None,
        }
    }

    pub fn is_white(self) -> (r: bool)
        ensures
            r == (self.color_spec() == Some(Color::White)),
    {
        match self.color() {
            Some(Color::White) => true,
            _ => false,
        }
    }

    pub fn is_black(self) -> (r: bool)
        ensures
            r == (self.color_spec() == Some(Color::Black)),
    {
        match self.color() {
            Some(Color::Black) => true,
            _ => false,
        }
    }

    /// The `Square` of the same kind, for sharing the board machinery.
    pub fn to_square(self) -> (r: crate::square::Square)
        ensures
            r.index_spec() == self.index_spec(),
    {
        crate::square::Square::from_index(self.index())
    }

    pub open spec fn to_char_spec(self) -> char {
        match self {
            Piece::Empty => '.',
            Piece::WPawn => 'P',
            Piece::WRook => 'R',
            Piece::WKnight => 'N',
            Piece::WBisshop => 'B',
            Piece::WQueen => 'Q',
            Piece::WKing => 'K',
            Piece::BPawn => 'p',
            Piece::BRook => 'r',
            Piece::BKnight => 'n',
            Piece::BBisshop => 'b',
            Piece::BQueen => 'q',
            Piece::BKing => 'k',
            Piece::OffBoard => '?',
        }
    }

    /// Letter of the piece in board notation.
    pub fn to_char(self) -> (r: char)
        ensures
            r == self.to_char_spec(),
    {
        match self {
            Piece::Empty => '.',
            Piece::WPawn => 'P',
            Piece::WRook => 'R',
            Piece::WKnight => 'N',
            Piece::WBisshop => 'B',
            Piece::WQueen => 'Q',
            Piece::WKing => 'K',
            Piece::BPawn => 'p',
            Piece::BRook => 'r',
            Piece::BKnight => 'n',
            Piece::BBisshop => 'b',
            Piece::BQueen => 'q',
            Piece::BKing => 'k',
            Piece::OffBoard => '?',
        }
    }
}

} // verus!
