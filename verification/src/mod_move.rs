use vstd::prelude::*;
use crate::pos::Pos;

verus! {

/// A bare (from, to) pair, used by the dense reference board, which looks the
/// moving piece up on the board instead of carrying it along.
#[derive(Clone, Copy, PartialEq, Eq, Structural)]
pub struct Move {
    pub from: Pos,
    pub to: Pos,
}

impl Move {
    pub fn new(from: Pos, to: Pos) -> (r: Self)
        requires
            from != to,
        ensures
            r == (Move { from, to }),
    {
        Move { from, to }
    }
}

} // verus!
