use vstd::prelude::*;
use crate::formatter::{format_board, pretty_spec};
use crate::piece::Piece;
use crate::pos::Pos;
use crate::square::Square;

verus! {

/// A dense array board over `Piece`, used solely as a plain cross-check
/// for the bitboard.
#[derive(Eq, PartialEq, Clone, Copy)]
pub struct ArrayBoard {
    pub board: [Piece; 64],
}

impl ArrayBoard {
    /// Empty board.
    pub fn new() -> (r: Self)
        ensures
            forall|i: int| 0 <= i < 64 ==> r.board@[i] == Piece::Empty,
    {
        ArrayBoard { board: [Piece::Empty;64] }
    }

    /// Piece at position `pos`.
    pub fn at(&self, pos: Pos) -> (r: Piece)
        requires
            pos.valid(),
        ensures
            r == self.board@[pos.index_spec()],
    {
        self.board[pos.index()]
    }

    pub fn set(&mut self, pos: Pos, piece: Piece)
        requires
            pos.valid(),
        ensures
            final(self).board@ == old(self).board@.update(pos.index_spec(), piece),
    {
        let i = pos.index();
        self.board[i] = piece;
    }

    /// Render the board with rank digits and file letters.
    pub fn to_string(&self) -> (r: String)
        ensures
            r@ == pretty_spec(Seq::new(64, |i: int| sq_of_piece(self.board@[i]))),
    {
        let mut pieces: Vec<Square> = Vec::new();
        let mut i: usize = 0;
        while i < 64
            invariant
                i <= 64,
                pieces@.len() == i,
                forall|k: int| 0 <= k < i ==> pieces@[k] == sq_of_piece(self.board@[k]),
            decreases 64 - i,
        {
            let sq = self.board[i].to_square();
            proof {
                crate::board::lemma_sq_of_index();
                assert(sq == sq_of_piece(self.board@[i as int]));
            }
            pieces.push(sq);
            i += 1;
        }
        proof {
            assert(pieces@ =~= Seq::new(64, |i: int| sq_of_piece(self.board@[i])));
        }
        format_board(&pieces)
    }
}

/// The square kind of the same numbering as a piece.
pub open spec fn sq_of_piece(p: Piece) -> Square {
    crate::board::sq_of(p.index_spec())
}

} // verus!
