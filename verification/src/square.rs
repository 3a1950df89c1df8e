use vstd::prelude::*;
use crate::color::Color;

verus! {

/// Contents of one board square: empty, one of the twelve piece kinds, or the
/// off-board sentinel used by the padded reference board.
#[derive(Clone, Copy, PartialEq, Eq, Structural, Debug, Hash, PartialOrd, Ord)]
pub enum Square {
    Empty,
    WPawn,
    WRook,
    WKnight,
    WBisshop,
    WQueen,
    WKing,
    BPawn,
    BRook,
    BKnight,
    BBisshop,
    BQueen,
    BKing,
    OffBoard,
}

impl Square {
    /// Index into the board's array of bit masks; `OffBoard` has no mask.
    pub open spec fn index_spec(self) -> int {
        match self {
            Square::Empty => 0,
            Square::WPawn => 1,
            Square::WRook => 2,
            Square::WKnight => 3,
            Square::WBisshop => 4,
            Square::WQueen => 5,
            Square::WKing => 6,
            Square::BPawn => 7,
            Square::BRook => 8,
            Square::BKnight => 9,
            Square::BBisshop => 10,
            Square::BQueen => 11,
            Square::BKing => 12,
            Square::OffBoard => 13,
        }
    }

    pub fn index(self) -> (r: usize)
        ensures
            r == self.index_spec(),
    {
        match self {
            Square::Empty => 0,
            Square::WPawn => 1,
            Square::WRook => 2,
            Square::WKnight => 3,
            Square::WBisshop => 4,
            Square::WQueen => 5,
            Square::WKing => 6,
            Square::BPawn => 7,
            Square::BRook => 8,
            Square::BKnight => 9,
            Square::BBisshop => 10,
            Square::BQueen => 11,
            Square::BKing => 12,
            Square::OffBoard => 13,
        }
    }

    /// The square kind whose mask index is `i`.
    pub fn from_index(i: usize) -> (r: Self)
        requires
            i < 14,
        ensures
            r.index_spec() == i,
    {
        match i {
            0 => Square::Empty,
            1 => Square::WPawn,
            2 => Square::WRook,
            3 => Square::WKnight,
            4 => Square::WBisshop,
            5 => Square::WQueen,
            6 => Square::WKing,
            7 => Square::BPawn,
            8 => Square::BRook,
            9 => Square::BKnight,
            10 => Square::BBisshop,
            11 => Square::BQueen,
            12 => Square::BKing,
            _ => Square::OffBoard,
        }
    }

    pub fn is_empty(self) -> (r: bool)
        ensures
            r == (self == Square::Empty),
    {
        self == Square::Empty
    }

    pub fn is_valid(self) -> (r: bool)
        ensures
            r == (self != Square::OffBoard),
    {
        self != Square::OffBoard
    }

    pub open spec fn color_spec(self) -> Option<Color> {
        if 1 <= self.index_spec() <= 6 {
            Some(Color::White)
        } else if 7 <= self.index_spec() <= 12 {
            Some(Color::Black)
        } else {
            None
        }
    }

    /// The side a piece belongs to; `None` for empty or off-board squares.
    pub fn color(self) -> (r: Option<Color>)
        ensures
            r == self.color_spec(),
    {
        match self {
            Square::WPawn | Square::WRook | Square::WKnight | Square::WBisshop | Square::WQueen
            | Square::WKing => Some(Color::White),
            Square::BPawn | Square::BRook | Square::BKnight | Square::BBisshop | Square::BQueen
            | Square::BKing => Some(Color::Black),
            _ => None,
        }
    }

    pub open spec fn is_white_spec(self) -> bool {
        self.color_spec() == Some(Color::White)
    }

    pub open spec fn is_black_spec(self) -> bool {
        self.color_spec() == Some(Color::Black)
    }

    pub fn is_color(self, color: Color) -> (r: bool)
        ensures
            r == (self.color_spec() == Some(color)),
    {
        match self.color() {
            Some(c) => c == color,
            None => false,
        }
    }

    pub fn is_king(self) -> (r: bool)
        ensures
            r == (self == Square::WKing || self == Square::BKing),
    {
        match self {
            Square::WKing | Square::BKing => true,
            _ => false,
        }
    }

    /// Signed material worth of the piece: pawn 1, knight and bishop 3,
    /// rook 5, queen 9, king 0; positive for white, negative for black, so
    /// that summing over the board gives the material balance.
    pub open spec fn value_spec(self) -> int {
        match self {
            Square::WPawn => 1,
            Square::WRook => 5,
            Square::WKnight => 3,
            Square::WBisshop => 3,
            Square::WQueen => 9,
            Square::BPawn => -1,
            Square::BRook => -5,
            Square::BKnight => -3,
            Square::BBisshop => -3,
            Square::BQueen => -9,
            _ => 0,
        }
    }

    pub fn value(self) -> (r: i32)
        ensures
            r == self.value_spec(),
    {
        match self {
            Square::WPawn => 1,
            Square::WRook => 5,
            Square::WKnight => 3,
            Square::WBisshop => 3,
            Square::WQueen => 9,
            Square::BPawn => -1,
            Square::BRook => -5,
            Square::BKnight => -3,
            Square::BBisshop => -3,
            Square::BQueen => -9,
            _ => 0,
        }
    }

    /// +1 for a white piece, -1 for a black piece, 0 otherwise.
    pub open spec fn sign_spec(self) -> int {
        if self.is_white_spec() {
            1
        } else if self.is_black_spec() {
            -1
        } else {
            0
        }
    }

    pub fn sign(self) -> (r: i32)
        ensures
            r == self.sign_spec(),
    {
        match self.color() {
            Some(Color::White) => 1,
            Some(Color::Black) => -1,
            None => 0,
        }
    }

    /// Letter for the square in board notation: uppercase for white,
    /// lowercase for black, `.` for empty, `?` off board.
    pub open spec fn to_char_spec(self) -> char {
        match self {
            Square::Empty => '.',
            Square::WPawn => 'P',
            Square::WRook => 'R',
            Square::WKnight => 'N',
            Square::WBisshop => 'B',
            Square::WQueen => 'Q',
            Square::WKing => 'K',
            Square::BPawn => 'p',
            Square::BRook => 'r',
            Square::BKnight => 'n',
            Square::BBisshop => 'b',
            Square::BQueen => 'q',
            Square::BKing => 'k',
            Square::OffBoard => '?',
        }
    }

    pub fn to_char(self) -> (r: char)
        ensures
            r == self.to_char_spec(),
    {
        match self {
            Square::Empty => '.',
            Square::WPawn => 'P',
            Square::WRook => 'R',
            Square::WKnight => 'N',
            Square::WBisshop => 'B',
            Square::WQueen => 'Q',
            Square::WKing => 'K',
            Square::BPawn => 'p',
            Square::BRook => 'r',
            Square::BKnight => 'n',
            Square::BBisshop => 'b',
            Square::BQueen => 'q',
            Square::BKing => 'k',
            Square::OffBoard => '?',
        }
    }

    /// The square whose notation letter is `c`, if any.
    pub fn try_from_char(c: char) -> (r: Option<Self>)
        ensures
            match r {
                Some(sq) => sq.to_char_spec() == c,
                None => forall|sq: Square| #[trigger] sq.to_char_spec() != c,
            },
    {
        match c {
            '.' => Some(Square::Empty),
            'P' => Some(Square::WPawn),
            'R' => Some(Square::WRook),
            'N' => Some(Square::WKnight),
            'B' => Some(Square::WBisshop),
            'Q' => Some(Square::WQueen),
            'K' => Some(Square::WKing),
            'p' => Some(Square::BPawn),
            'r' => Some(Square::BRook),
            'n' => Some(Square::BKnight),
            'b' => Some(Square::BBisshop),
            'q' => Some(Square::BQueen),
            'k' => Some(Square::BKing),
            '?' => Some(Square::OffBoard),
            _ => None,
        }
    }

    /// Figurine for the piece, for terminal rendering.
    pub fn unicode(self) -> char {
        match self {
            Square::Empty => ' ',
            Square::WPawn => '♙',
            Square::WRook => '♖',
            Square::WKnight => '♘',
            Square::WBisshop => '♗',
            Square::WQueen => '♕',
            Square::WKing => '♔',
            Square::BPawn => '♟',
            Square::BRook => '♜',
            Square::BKnight => '♞',
            Square::BBisshop => '♝',
            Square::BQueen => '♛',
            Square::BKing => '♚',
            Square::OffBoard => '?',
        }
    }
}

} // verus!
