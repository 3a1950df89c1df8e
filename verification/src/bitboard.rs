use vstd::prelude::*;
use crate::bits::{bit, count_bits, Dir};
use crate::board::{is_mate, Board};
use crate::color::Color;
use crate::moves::Move;
use crate::pos::Pos;
use crate::square::Square;

verus! {

/// The bitboard engine board: thirteen square-set masks, the same layout the
/// search works on. The older name of `Board`, kept as a thin layer with the
/// naming that the search and the tests use (`reach` for attack vectors,
/// `capture` for pawn captures).
#[derive(Clone, Copy, Debug)]
pub struct BitBoard {
    pub sets: Board,
}

impl BitBoard {
    pub open spec fn wf(self) -> bool {
        self.sets.wf()
    }

    pub open spec fn at_spec(self, i: u64) -> Square {
        self.sets.at_spec(i)
    }

    /// Empty board.
    pub fn new() -> (r: Self)
        ensures
            r.wf(),
            forall|i: u64| i < 64 ==> r.at_spec(i) == Square::Empty,
    {
        BitBoard { sets: Board::new() }
    }

    /// The usual starting position.
    pub fn starting_position() -> (r: Self)
        ensures
            r.wf(),
            forall|i: u64| i < 64 ==> r.at_spec(i) == Board::starting_at(i),
    {
        BitBoard { sets: Board::starting_position() }
    }

    pub fn at(&self, pos: Pos) -> (r: Square)
        requires
            self.wf(),
            pos.valid(),
        ensures
            r == self.at_spec(pos.index_spec() as u64),
    {
        self.sets.at(pos)
    }

    /// Bitset for all pieces of kind `piece`.
    pub fn bits(&self, piece: Square) -> (r: u64)
        requires
            piece != Square::OffBoard,
        ensures
            r == self.sets.bitfields[piece.index_spec()],
    {
        self.sets.bits(piece)
    }

    pub fn set(&mut self, pos: Pos, piece: Square)
        requires
            old(self).wf(),
            pos.valid(),
            piece != Square::OffBoard,
        ensures
            final(self).wf(),
            forall|j: u64|
                j < 64 ==> final(self).at_spec(j) == (if j == pos.index_spec() {
                    piece
                } else {
                    old(self).at_spec(j)
                }),
    {
        self.sets.set(pos, piece)
    }

    /// The board after playing `mv`: the destination gets whatever stands on
    /// the origin, and the origin becomes empty.
    pub fn with_move(&self, mv: Move) -> (r: Self)
        requires
            self.wf(),
            mv.valid_spec(),
        ensures
            r.wf(),
            forall|j: u64|
                j < 64 ==> r.at_spec(j) == (if j == mv.from.index_spec() {
                    Square::Empty
                } else if j == mv.to.index_spec() {
                    self.at_spec(mv.from.index_spec() as u64)
                } else {
                    self.at_spec(j)
                }),
    {
        let mut b = *self;
        let piece = self.at(mv.from);
        proof {
            self.sets.lemma_at(mv.from.index_spec() as u64);
            crate::board::lemma_sq_of_index();
        }
        b.set(mv.to, piece);
        b.set(mv.from, Square::Empty);
        b
    }

    /// Every pseudo-legal move of `player`.
    pub fn collect_moves(&self, player: Color) -> (r: Vec<Move>)
        requires
            self.wf(),
        ensures
            forall|m: Move| r@.contains(m) <==> self.sets.gen_move_spec(player, m),
            forall|k1: int, k2: int| 0 <= k1 < k2 < r@.len() ==> r@[k1] != r@[k2],
    {
        self.sets.collect_moves(player)
    }

    /// Every pseudo-legal move of `player` (the older name).
    pub fn all_moves(&self, player: Color) -> (r: Vec<Move>)
        requires
            self.wf(),
        ensures
            forall|m: Move| r@.contains(m) <==> self.sets.gen_move_spec(player, m),
            forall|k1: int, k2: int| 0 <= k1 < k2 < r@.len() ==> r@[k1] != r@[k2],
    {
        self.sets.collect_moves(player)
    }

    /// Union of the squares `player`'s pieces reach.
    pub fn reach(&self, player: Color) -> (r: u64)
        requires
            self.wf(),
        ensures
            r == self.sets.attack_vector_spec(player),
    {
        self.sets.attack_vector(player)
    }

    pub fn w_reach(&self) -> (r: u64)
        requires
            self.wf(),
        ensures
            r == self.sets.w_attack_vector_spec(),
    {
        self.sets.w_attack_vector()
    }

    pub fn b_reach(&self) -> (r: u64)
        requires
            self.wf(),
        ensures
            r == self.sets.b_attack_vector_spec(),
    {
        self.sets.b_attack_vector()
    }

    pub fn w_king_moves(&self) -> (r: u64)
        requires
            self.wf(),
        ensures
            r == self.sets.king_moves_spec(self.sets.bitfields[6], self.sets.white_spec()),
    {
        self.sets.w_king_moves()
    }

    pub fn b_king_moves(&self) -> (r: u64)
        requires
            self.wf(),
        ensures
            r == self.sets.king_moves_spec(self.sets.bitfields[12], self.sets.black_spec()),
    {
        self.sets.b_king_moves()
    }

    /// Squares a king standing on `king` reaches, including its own square.
    pub fn king_reach(&self, king: u64) -> (r: u64)
        ensures
            r == Board::king_vector_spec(king),
    {
        self.sets.king_vector(king)
    }

    pub fn w_knight_moves(&self) -> (r: u64)
        requires
            self.wf(),
        ensures
            r == self.sets.knight_moves_spec(self.sets.bitfields[3], self.sets.white_spec()),
    {
        self.sets.w_knight_moves()
    }

    pub fn b_knight_moves(&self) -> (r: u64)
        requires
            self.wf(),
        ensures
            r == self.sets.knight_moves_spec(self.sets.bitfields[9], self.sets.black_spec()),
    {
        self.sets.b_knight_moves()
    }

    pub fn knight_reach(&self, knights: u64) -> (r: u64)
        ensures
            r == Board::knight_vector_spec(knights),
    {
        self.sets.knight_vector(knights)
    }

    pub fn queen_moves(&self, queen: u64, player: u64) -> (r: u64)
        requires
            self.wf(),
        ensures
            r == self.sets.queen_vector_spec(queen) & !player,
    {
        self.sets.queen_moves(queen, player)
    }

    pub fn w_bisshop_moves(&self) -> (r: u64)
        requires
            self.wf(),
        ensures
            r == self.sets.bisshop_moves_spec(self.sets.bitfields[4], self.sets.white_spec()),
    {
        self.sets.w_bisshop_moves()
    }

    pub fn b_bisshop_moves(&self) -> (r: u64)
        requires
            self.wf(),
        ensures
            r == self.sets.bisshop_moves_spec(self.sets.bitfields[10], self.sets.black_spec()),
    {
        self.sets.b_bisshop_moves()
    }

    pub fn bisshop_moves(&self, bisshops: u64, player: u64) -> (r: u64)
        requires
            self.wf(),
        ensures
            r == self.sets.bisshop_moves_spec(bisshops, player),
    {
        self.sets.bisshop_moves(bisshops, player)
    }

    pub fn bisshop_reach(&self, bits: u64) -> (r: u64)
        requires
            self.wf(),
        ensures
            r == self.sets.bisshop_vector_spec(bits),
    {
        self.sets.bisshop_vector(bits)
    }

    pub fn w_rook_moves(&self) -> (r: u64)
        requires
            self.wf(),
        ensures
            r == self.sets.rook_moves_spec(self.sets.bitfields[2], self.sets.white_spec()),
    {
        self.sets.w_rook_moves()
    }

    pub fn b_rook_moves(&self) -> (r: u64)
        requires
            self.wf(),
        ensures
            r == self.sets.rook_moves_spec(self.sets.bitfields[8], self.sets.black_spec()),
    {
        self.sets.b_rook_moves()
    }

    pub fn rook_reach(&self, bits: u64) -> (r: u64)
        requires
            self.wf(),
        ensures
            r == self.sets.rook_vector_spec(bits),
    {
        self.sets.rook_vector(bits)
    }

    pub fn w_pawn_move(&self) -> (r: u64)
        requires
            self.wf(),
        ensures
            r == self.sets.w_pawn_push_spec() | self.sets.w_pawn_attack_spec(),
    {
        self.sets.w_pawn_move()
    }

    pub fn b_pawn_move(&self) -> (r: u64)
        requires
            self.wf(),
        ensures
            r == self.sets.b_pawn_push_spec() | self.sets.b_pawn_attack_spec(),
    {
        self.sets.b_pawn_move()
    }

    pub fn w_pawn_push(&self) -> (r: u64)
        requires
            self.wf(),
        ensures
            r == self.sets.w_pawn_push_spec(),
    {
        self.sets.w_pawn_push()
    }

    pub fn w_pawn_push1(&self) -> (r: u64)
        requires
            self.wf(),
        ensures
            r == self.sets.w_pawn_push1_spec(),
    {
        self.sets.w_pawn_push1()
    }

    pub fn w_pawn_push2(&self) -> (r: u64)
        requires
            self.wf(),
        ensures
            r == self.sets.w_pawn_push2_spec(),
    {
        self.sets.w_pawn_push2()
    }

    pub fn b_pawn_push(&self) -> (r: u64)
        requires
            self.wf(),
        ensures
            r == self.sets.b_pawn_push_spec(),
    {
        self.sets.b_pawn_push()
    }

    pub fn b_pawn_push1(&self) -> (r: u64)
        requires
            self.wf(),
        ensures
            r == self.sets.b_pawn_push1_spec(),
    {
        self.sets.b_pawn_push1()
    }

    pub fn b_pawn_push2(&self) -> (r: u64)
        requires
            self.wf(),
        ensures
            r == self.sets.b_pawn_push2_spec(),
    {
        self.sets.b_pawn_push2()
    }

    pub fn w_pawn_capture(&self) -> (r: u64)
        requires
            self.wf(),
        ensures
            r == self.sets.w_pawn_attack_spec(),
    {
        self.sets.w_pawn_attack()
    }

    pub fn b_pawn_capture(&self) -> (r: u64)
        requires
            self.wf(),
        ensures
            r == self.sets.b_pawn_attack_spec(),
    {
        self.sets.b_pawn_attack()
    }

    pub fn w_pawn_capture_ne(&self) -> (r: u64)
        requires
            self.wf(),
        ensures
            r == self.sets.w_pawn_attack_ne_spec(),
    {
        self.sets.w_pawn_attack_ne()
    }

    pub fn b_pawn_capture_se(&self) -> (r: u64)
        requires
            self.wf(),
        ensures
            r == self.sets.b_pawn_attack_se_spec(),
    {
        self.sets.b_pawn_attack_se()
    }

    pub fn w_pawn_capture_nw(&self) -> (r: u64)
        requires
            self.wf(),
        ensures
            r == self.sets.w_pawn_attack_nw_spec(),
    {
        self.sets.w_pawn_attack_nw()
    }

    pub fn b_pawn_capture_sw(&self) -> (r: u64)
        requires
            self.wf(),
        ensures
            r == self.sets.b_pawn_attack_sw_spec(),
    {
        self.sets.b_pawn_attack_sw()
    }

    /// Ray cast from `bits` in direction `d` through empty squares.
    pub fn slide(&self, bits: u64, d: Dir) -> (r: u64)
        requires
            self.wf(),
        ensures
            r == self.sets.slide_spec(bits, d),
    {
        self.sets.slide(bits, d)
    }

    pub fn white(&self) -> (r: u64)
        requires
            self.wf(),
        ensures
            r == self.sets.white_spec(),
            forall|i: u64|
                i < 64 ==> (#[trigger] bit(r, i) <==> self.at_spec(i).is_white_spec()),
    {
        self.sets.white()
    }

    pub fn black(&self) -> (r: u64)
        requires
            self.wf(),
        ensures
            r == self.sets.black_spec(),
            forall|i: u64|
                i < 64 ==> (#[trigger] bit(r, i) <==> self.at_spec(i).is_black_spec()),
    {
        self.sets.black()
    }

    pub fn all_pieces(&self, player: Color) -> (r: u64)
        requires
            self.wf(),
        ensures
            r == self.sets.pieces_spec(player),
    {
        self.sets.all_pieces(player)
    }

    pub fn empty(&self) -> (r: u64)
        requires
            self.wf(),
        ensures
            r == self.sets.empty_spec(),
    {
        self.sets.empty()
    }

    pub fn piece_count(&self, piece: Square) -> (r: u32)
        requires
            piece != Square::OffBoard,
        ensures
            r == count_bits(self.sets.bitfields[piece.index_spec()]),
    {
        self.sets.piece_count(piece)
    }

    /// The positions of the squares `bits` holds, in row-major order.
    pub fn iter(bits: u64) -> (r: Vec<Pos>)
        ensures
            forall|k: int| 0 <= k < r@.len() ==> (#[trigger] r@[k]).valid(),
            forall|k: int|
                0 <= k < r@.len() ==> bit(bits, (#[trigger] r@[k]).index_spec() as u64),
            forall|k1: int, k2: int|
                0 <= k1 < k2 < r@.len() ==> r@[k1].index_spec() < r@[k2].index_spec(),
            forall|j: u64|
                j < 64 && #[trigger] bit(bits, j) ==> exists|k: int|
                    0 <= k < r@.len() && (#[trigger] r@[k]).index_spec() == j,
    {
        Board::iter(bits)
    }

    pub fn is_check(&self, player: Color) -> (r: bool)
        requires
            self.wf(),
        ensures
            r == self.sets.in_check_spec(player),
    {
        self.sets.is_check(player)
    }

    pub fn has_king(&self, player: Color) -> (r: bool)
        requires
            self.wf(),
        ensures
            r == exists|i: u64| i < 64 && #[trigger] self.sets.at_spec(i) == player.king_spec(),
    {
        self.sets.has_king(player)
    }

    pub fn king_position(&self, player: Color) -> (r: Pos)
        requires
            self.wf(),
            exists|i: u64| i < 64 && #[trigger] self.sets.at_spec(i) == player.king_spec(),
        ensures
            r.valid(),
            self.at_spec(r.index_spec() as u64) == player.king_spec(),
    {
        self.sets.king_position(player)
    }

    /// Is `player` mated on this board?
    pub fn is_mate(&self, player: Color) -> (r: bool)
        requires
            self.wf(),
        ensures
            r == forall|m: Move|
                self.sets.gen_move_spec(player, m) ==> self.sets.with_move_spec(
                    m,
                ).in_check_spec(player),
    {
        is_mate(&self.sets, player)
    }
}

impl BitBoard {
    /// Parse a board from its text notation.
    pub fn parse(s: &str) -> (r: Result<Self, crate::parser::ParseError>)
        ensures
            r matches Ok(b) ==> b.wf(),
            crate::parser::is_board_text(s@) ==> (r matches Ok(b) && forall|i: u64|
                i < 64 ==> b.at_spec(i) == crate::parser::text_square(s@, i as int)),
    {
        match crate::parser::parse_board(s) {
            Ok(b) => Ok(BitBoard { sets: b }),
            Err(e) => Err(e),
        }
    }

    /// The plain text notation of the board.
    pub fn to_text(&self) -> (r: String)
        requires
            self.wf(),
        ensures
            r@ == crate::formatter::text_spec(self.sets),
    {
        self.sets.to_text()
    }

    /// Render the board with rank digits and file letters.
    pub fn render(&self) -> (r: String)
        requires
            self.wf(),
        ensures
            r@ == crate::formatter::pretty_spec(
                Seq::new(64, |i: int| self.sets.at_spec(i as u64)),
            ),
    {
        self.sets.render()
    }
}

impl core::str::FromStr for BitBoard {
    type Err = crate::parser::ParseError;

    fn from_str(s: &str) -> Result<Self, crate::parser::ParseError> {
        BitBoard::parse(s)
    }
}

} // verus!
