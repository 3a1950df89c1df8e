use vstd::prelude::*;
use crate::pos::Pos;
use crate::square::Square;

verus! {

/// A move: the moving piece and its two endpoints. The piece tag is carried
/// for assertions and notation; the endpoints drive the board update.
#[derive(Clone, Copy, PartialEq, Eq, Structural, Debug, Hash, PartialOrd, Ord)]
pub struct Move {
    pub piece: Square,
    pub from: Pos,
    pub to: Pos,
}

impl Move {
    /// Both endpoints on the board, and distinct.
    pub open spec fn valid_spec(self) -> bool {
        self.from.valid() && self.to.valid() && self.from != self.to
    }

    pub fn new(piece: Square, from: Pos, to: Pos) -> (r: Self)
        requires
            from.valid(),
            to.valid(),
            from != to,
            piece != Square::Empty,
        ensures
            r == (Move { piece, from, to }),
            r.valid_spec(),
    {
        Move { piece, from, to }
    }

    pub fn is_valid(self) -> (r: bool)
        ensures
            r == self.valid_spec(),
    {
        self.from.is_valid() && self.to.is_valid() && !(self.from == self.to)
    }
}

impl core::str::FromStr for Move {
    type Err = crate::parser::ParseError;

    fn from_str(s: &str) -> Result<Self, crate::parser::ParseError> {
        crate::parser::parse_move(s)
    }
}

} // verus!
