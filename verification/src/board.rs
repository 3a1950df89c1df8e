use vstd::prelude::*;
use crate::bits::{bit, lemma_bit_ext, lemma_bit_ops, lemma_single_bit, lemma_test_bit, sh_n, sh_e,
    sh_s, sh_w, sh_ne, sh_se, sh_sw, sh_nw, sh_n_spec, sh_e_spec, sh_s_spec, sh_w_spec, sh_ne_spec,
    sh_se_spec, sh_sw_spec, sh_nw_spec, dshift, dshift_spec, Dir, stepped, slide_acc, popcount,
    count_bits, iter_bitfield, ROW1, ROW6, lemma_sh_n, lemma_sh_e, lemma_sh_s, lemma_sh_w,
    lemma_sh_ne, lemma_sh_se, lemma_sh_sw, lemma_sh_nw, lemma_row_masks};
use crate::color::Color;
use crate::moves::Move;
use crate::pos::{pos, Pos};
use crate::square::Square;

verus! {

broadcast use vstd::array::group_array_axioms;

/// A chess position as 13 bit masks, one per square kind (the twelve pieces
/// and "empty"), bit `i` standing for the square with row-major index `i`.
/// The invariant `wf` says the masks partition the 64 squares: every square
/// is set in exactly one mask.
#[derive(Clone, Copy, Debug)]
pub struct Board {
    pub bitfields: [u64; 13],
}

/// The square kind stored in mask `k`.
pub open spec fn sq_of(k: int) -> Square {
    if k == 0 {
        Square::Empty
    } else if k == 1 {
        Square::WPawn
    } else if k == 2 {
        Square::WRook
    } else if k == 3 {
        Square::WKnight
    } else if k == 4 {
        Square::WBisshop
    } else if k == 5 {
        Square::WQueen
    } else if k == 6 {
        Square::WKing
    } else if k == 7 {
        Square::BPawn
    } else if k == 8 {
        Square::BRook
    } else if k == 9 {
        Square::BKnight
    } else if k == 10 {
        Square::BBisshop
    } else if k == 11 {
        Square::BQueen
    } else if k == 12 {
        Square::BKing
    } else {
        Square::OffBoard
    }
}

/// `sq_of` and `index_spec` invert each other on the thirteen mask indices.
pub proof fn lemma_sq_of_index()
    ensures
        forall|k: int| 0 <= k < 13 ==> #[trigger] sq_of(k).index_spec() == k,
        forall|sq: Square| sq != Square::OffBoard ==> sq_of(#[trigger] sq.index_spec()) == sq,
        forall|sq: Square| 0 <= #[trigger] sq.index_spec() <= 13,
        forall|sq: Square| sq != Square::OffBoard <==> #[trigger] sq.index_spec() < 13,
{
}

impl Board {
    /// Does mask `k` hold square `i`?
    pub open spec fn holds(self, k: int, i: u64) -> bool {
        bit(self.bitfields[k], i)
    }

    /// Some mask holds square `i`.
    pub open spec fn covered(self, i: u64) -> bool {
        exists|k: int| 0 <= k < 13 && #[trigger] self.holds(k, i)
    }

    /// The thirteen masks partition the squares: each square is held by
    /// exactly one mask.
    pub open spec fn wf(self) -> bool {
        (forall|i: u64| i < 64 ==> #[trigger] self.covered(i))
            && (forall|k1: int, k2: int, i: u64|
            0 <= k1 < 13 && 0 <= k2 < 13 && k1 != k2 && i < 64 && #[trigger] self.holds(k1, i)
                ==> !#[trigger] self.holds(k2, i))
    }

    /// The first mask from `k` upward that holds square `i`, as a square
    /// kind; `Empty` when none does.
    pub open spec fn at_from(self, i: u64, k: int) -> Square
        decreases 13 - k,
    {
        if k < 0 || k >= 13 {
            Square::Empty
        } else if self.holds(k, i) {
            sq_of(k)
        } else {
            self.at_from(i, k + 1)
        }
    }

    /// The piece on square `i`: the kind of the unique mask holding `i`.
    pub open spec fn at_spec(self, i: u64) -> Square {
        self.at_from(i, 0)
    }

    proof fn lemma_at_from(self, i: u64, k: int, k0: int)
        requires
            0 <= k <= k0 < 13,
            self.holds(k0, i),
            forall|k2: int| 0 <= k2 < 13 && k2 != k0 ==> !#[trigger] self.holds(k2, i),
        ensures
            self.at_from(i, k) == sq_of(k0),
        decreases 13 - k,
    {
        if k < k0 {
            self.lemma_at_from(i, k + 1, k0);
        }
    }

    /// On a well-formed board, a mask holds a square exactly when `at_spec`
    /// names its kind.
    pub proof fn lemma_at(self, i: u64)
        requires
            self.wf(),
            i < 64,
        ensures
            0 <= self.at_spec(i).index_spec() < 13,
            forall|k: int|
                0 <= k < 13 ==> (#[trigger] self.holds(k, i) <==> self.at_spec(i).index_spec()
                    == k),
            self.holds(self.at_spec(i).index_spec(), i),
    {
        assert(self.covered(i));
        let k0 = choose|k: int| 0 <= k < 13 && #[trigger] self.holds(k, i);
        assert(forall|k2: int| 0 <= k2 < 13 && k2 != k0 ==> !#[trigger] self.holds(k2, i));
        self.lemma_at_from(i, 0, k0);
        lemma_sq_of_index();
    }

    /// Empty board: every square in the empty mask.
    pub fn new() -> (r: Board)
        ensures
            r.wf(),
            forall|i: u64| i < 64 ==> r.at_spec(i) == Square::Empty,
    {
        let bitfields: [u64; 13] = [
            0xffff_ffff_ffff_ffffu64,
            0,
            0,
            0,
            0,
            0,
            0,
            0,
            0,
            0,
            0,
            0,
            0,
        ];
        let r = Board { bitfields };
        proof {
            lemma_const_bits();
            assert forall|i: u64| i < 64 implies r.at_spec(i) == Square::Empty by {
                assert(r.holds(0, i));
            }
            assert forall|i: u64| i < 64 implies #[trigger] r.covered(i) by {
                assert(r.holds(0, i));
            }
        }
        r
    }

    /// Mask of all squares holding piece kind `piece`.
    pub fn bits(&self, piece: Square) -> (r: u64)
        requires
            piece != Square::OffBoard,
        ensures
            r == self.bitfields[piece.index_spec()],
    {
        self.bitfields[piece.index()]
    }

    /// Piece at a position, by linear search through the masks.
    pub fn at(&self, pos: Pos) -> (r: Square)
        requires
            self.wf(),
            pos.valid(),
        ensures
            r == self.at_spec(pos.index_spec() as u64),
    {
        let i = pos.index();
        let mask = 1u64 << (i as u64);
        proof {
            lemma_single_bit(i as u64);
        }
        let mut k: usize = 0;
        while k < 13
            invariant
                self.wf(),
                i < 64,
                k <= 13,
                mask == 1u64 << (i as u64),
                i == pos.index_spec(),
                forall|i2: u64| i2 < 64 ==> (#[trigger] bit(mask, i2) <==> i2 == i),
                forall|k2: int| 0 <= k2 < k ==> !#[trigger] self.holds(k2, i as u64),
                self.at_spec(i as u64) == self.at_from(i as u64, k as int),
            decreases 13 - k,
        {
            proof {
                lemma_test_bit(self.bitfields[k as int], i as u64);
            }
            if self.bitfields[k] & mask != 0 {
                let sq = Square::from_index(k);
                proof {
                    lemma_sq_of_index();
                    assert(self.at_from(i as u64, k as int) == sq_of(k as int));
                    assert(sq == sq_of(k as int));
                    assert(self.at_spec(i as u64) == sq);
                    assert(pos.index_spec() as u64 == i as u64);
                }
                return sq;
            }
            k += 1;
        }
        proof {
            assert(self.covered(i as u64));
            let k0 = choose|k: int| 0 <= k < 13 && #[trigger] self.holds(k, i as u64);
            assert(false);
        }
        Square::Empty
    }

    /// Remove square `p` from every mask.
    fn clear(&mut self, p: u8)
        requires
            p < 64,
        ensures
            forall|k: int, j: u64|
                0 <= k < 13 && j < 64 ==> (#[trigger] final(self).holds(k, j) <==> (j != p && old(
                    self,
                ).holds(k, j))),
    {
        let mask = !(1u64 << (p as u64));
        proof {
            lemma_single_bit(p as u64);
            lemma_bit_ops(1u64 << (p as u64), 0);
        }
        let mut k: usize = 0;
        while k < 13
            invariant
                p < 64,
                k <= 13,
                mask == !(1u64 << (p as u64)),
                forall|j: u64| j < 64 ==> (#[trigger] bit(mask, j) <==> j != p),
                forall|k2: int, j: u64|
                    0 <= k2 < k && j < 64 ==> (#[trigger] self.holds(k2, j) <==> (j != p && old(
                        self,
                    ).holds(k2, j))),
                forall|k2: int| k <= k2 < 13 ==> self.bitfields[k2] == old(self).bitfields[k2],
            decreases 13 - k,
        {
            let ghost before = *self;
            let ghost w = self.bitfields[k as int];
            proof {
                lemma_bit_ops(w, mask);
            }
            let v = self.bitfields[k] & mask;
            self.bitfields[k] = v;
            proof {
                assert forall|k2: int, j: u64| 0 <= k2 < k + 1 && j < 64 implies (
                #[trigger] self.holds(k2, j) <==> (j != p && old(self).holds(k2, j))) by {
                    if k2 == k as int {
                        assert(self.holds(k2, j) == bit(v, j));
                        assert(bit(v, j) <==> (bit(w, j) && bit(mask, j)));
                        assert(old(self).holds(k2, j) == bit(w, j));
                    } else {
                        assert(before.holds(k2, j) <==> (j != p && old(self).holds(k2, j)));
                        assert(self.bitfields[k2] == before.bitfields[k2]);
                    }
                }
            }
            k += 1;
        }
    }

    /// Put `piece` on `pos`: take the square out of every mask, then set it
    /// in the mask of `piece`. All other squares keep their piece.
    pub fn set(&mut self, pos: Pos, piece: Square)
        requires
            old(self).wf(),
            pos.valid(),
            piece != Square::OffBoard,
        ensures
            final(self).wf(),
            forall|j: u64|
                j < 64 ==> final(self).at_spec(j) == (if j == pos.index_spec() {
                    piece
                } else {
                    old(self).at_spec(j)
                }),
    {
        let ghost pre = *old(self);
        let p = pos.index();
        self.clear(p as u8);
        let ghost mid = *self;
        let ki = piece.index();
        proof {
            lemma_single_bit(p as u64);
            lemma_bit_ops(mid.bitfields[ki as int], 1u64 << (p as u64));
        }
        let v = self.bitfields[ki] | (1u64 << (p as u64));
        self.bitfields[ki] = v;
        proof {
            lemma_sq_of_index();
            let fin = *self;
            assert forall|k: int, j: u64| 0 <= k < 13 && j < 64 implies (#[trigger] fin.holds(
                k,
                j,
            ) <==> (if j == p as u64 {
                k == piece.index_spec()
            } else {
                pre.holds(k, j)
            })) by {
                assert(mid.holds(k, j) <==> (j != p as u8 as u64 && pre.holds(k, j)));
                if k == ki as int {
                    assert(fin.bitfields[k] == v);
                    assert(bit(v, j) <==> (bit(mid.bitfields[ki as int], j) || j == p as u64));
                    assert(mid.holds(k, j) == bit(mid.bitfields[ki as int], j));
                } else {
                    assert(fin.bitfields[k] == mid.bitfields[k]);
                    assert(fin.holds(k, j) == mid.holds(k, j));
                }
            }
            assert forall|j: u64| j < 64 implies #[trigger] fin.covered(j) by {
                if j == p as u64 {
                    assert(fin.holds(piece.index_spec(), j));
                } else {
                    pre.lemma_at(j);
                    assert(fin.holds(pre.at_spec(j).index_spec(), j));
                }
            }
            assert(fin.wf());
            assert forall|j: u64| j < 64 implies fin.at_spec(j) == (if j == pos.index_spec() {
                piece
            } else {
                pre.at_spec(j)
            }) by {
                fin.lemma_at(j);
                if j == p as u64 {
                    assert(fin.holds(piece.index_spec(), j));
                } else {
                    pre.lemma_at(j);
                    assert(fin.holds(pre.at_spec(j).index_spec(), j));
                }
            }
        }
    }

    /// The board after playing `mv`: both endpoints are first emptied, then
    /// the destination gets the moving piece and the origin becomes empty.
    /// Squares other than the two endpoints are untouched.
    pub fn with_move(&self, mv: Move) -> (r: Board)
        requires
            self.wf(),
            mv.valid_spec(),
            mv.piece != Square::Empty && mv.piece != Square::OffBoard,
            self.at_spec(mv.from.index_spec() as u64) == mv.piece,
        ensures
            r == self.with_move_spec(mv),
            r.wf(),
            forall|j: u64|
                j < 64 ==> r.at_spec(j) == (if j == mv.from.index_spec() {
                    Square::Empty
                } else if j == mv.to.index_spec() {
                    mv.piece
                } else {
                    self.at_spec(j)
                }),
    {
        let mut b = *self;
        b.set(mv.to, mv.piece);
        b.set(mv.from, Square::Empty);
        proof {
            self.lemma_with_move_spec(mv);
            Self::lemma_board_ext(b, self.with_move_spec(mv));
        }
        b
    }

    /// Is there any piece of kind `piece` on the board?
    pub fn has_piece(&self, piece: Square) -> (r: bool)
        requires
            self.wf(),
            piece != Square::OffBoard,
        ensures
            r == exists|i: u64| i < 64 && #[trigger] self.at_spec(i) == piece,
    {
        let m = self.bits(piece);
        proof {
            lemma_sq_of_index();
            let ghost ki = piece.index_spec();
            if m != 0 {
                lemma_nonzero_has_bit(m);
                let i = choose|i: u64| i < 64 && #[trigger] bit(m, i);
                self.lemma_at(i);
                assert(self.holds(ki, i));
                assert(self.at_spec(i) == piece);
            }
            if exists|i: u64| i < 64 && #[trigger] self.at_spec(i) == piece {
                let i = choose|i: u64| i < 64 && #[trigger] self.at_spec(i) == piece;
                self.lemma_at(i);
                assert(self.holds(ki, i));
                lemma_const_bits();
                assert(m != 0) by {
                    if m == 0 {
                        assert(!bit(0u64, i));
                    }
                }
            }
        }
        m != 0
    }
}

// ___________________________________________________________ mask functions

impl Board {
    /// All white pieces, as a mask.
    pub open spec fn white_spec(self) -> u64 {
        self.bitfields[1] | self.bitfields[2] | self.bitfields[3] | self.bitfields[4]
            | self.bitfields[5] | self.bitfields[6]
    }

    /// All black pieces, as a mask.
    pub open spec fn black_spec(self) -> u64 {
        self.bitfields[7] | self.bitfields[8] | self.bitfields[9] | self.bitfields[10]
            | self.bitfields[11] | self.bitfields[12]
    }

    /// All empty squares, as a mask.
    pub open spec fn empty_spec(self) -> u64 {
        self.bitfields[0]
    }

    /// All pieces of one side, as a mask.
    pub open spec fn pieces_spec(self, c: Color) -> u64 {
        match c {
            Color::White => self.white_spec(),
            Color::Black => self.black_spec(),
        }
    }

    /// The side masks hold exactly the squares whose piece has that color,
    /// and the empty mask exactly the empty squares.
    pub proof fn lemma_side_masks(self)
        requires
            self.wf(),
        ensures
            forall|i: u64|
                i < 64 ==> (#[trigger] bit(self.white_spec(), i)
                    <==> self.at_spec(i).is_white_spec()),
            forall|i: u64|
                i < 64 ==> (#[trigger] bit(self.black_spec(), i)
                    <==> self.at_spec(i).is_black_spec()),
            forall|i: u64|
                i < 64 ==> (#[trigger] bit(self.empty_spec(), i) <==> self.at_spec(i)
                    == Square::Empty),
    {
        let f = self.bitfields;
        assert forall|i: u64| i < 64 implies ((bit(self.white_spec(), i)
            <==> self.at_spec(i).is_white_spec()) && (bit(self.black_spec(), i)
            <==> self.at_spec(i).is_black_spec()) && (bit(self.empty_spec(), i)
            <==> self.at_spec(i) == Square::Empty)) by {
            self.lemma_at(i);
            lemma_sq_of_index();
            assert(self.holds(0, i) == bit(f[0], i));
            assert(self.holds(1, i) == bit(f[1], i));
            assert(self.holds(2, i) == bit(f[2], i));
            assert(self.holds(3, i) == bit(f[3], i));
            assert(self.holds(4, i) == bit(f[4], i));
            assert(self.holds(5, i) == bit(f[5], i));
            assert(self.holds(6, i) == bit(f[6], i));
            assert(self.holds(7, i) == bit(f[7], i));
            assert(self.holds(8, i) == bit(f[8], i));
            assert(self.holds(9, i) == bit(f[9], i));
            assert(self.holds(10, i) == bit(f[10], i));
            assert(self.holds(11, i) == bit(f[11], i));
            assert(self.holds(12, i) == bit(f[12], i));
            lemma_bit_ops(f[1], f[2]);
            lemma_bit_ops(f[1] | f[2], f[3]);
            lemma_bit_ops(f[1] | f[2] | f[3], f[4]);
            lemma_bit_ops(f[1] | f[2] | f[3] | f[4], f[5]);
            lemma_bit_ops(f[1] | f[2] | f[3] | f[4] | f[5], f[6]);
            lemma_bit_ops(f[7], f[8]);
            lemma_bit_ops(f[7] | f[8], f[9]);
            lemma_bit_ops(f[7] | f[8] | f[9], f[10]);
            lemma_bit_ops(f[7] | f[8] | f[9] | f[10], f[11]);
            lemma_bit_ops(f[7] | f[8] | f[9] | f[10] | f[11], f[12]);
        }
        assert forall|i: u64| i < 64 implies (#[trigger] bit(self.white_spec(), i)
            <==> self.at_spec(i).is_white_spec()) by {}
        assert forall|i: u64| i < 64 implies (#[trigger] bit(self.black_spec(), i)
            <==> self.at_spec(i).is_black_spec()) by {}
        assert forall|i: u64| i < 64 implies (#[trigger] bit(self.empty_spec(), i)
            <==> self.at_spec(i) == Square::Empty) by {}
    }

    /// Mask of all white pieces.
    pub fn white(&self) -> (r: u64)
        requires
            self.wf(),
        ensures
            r == self.white_spec(),
            forall|i: u64|
                i < 64 ==> (#[trigger] bit(r, i) <==> self.at_spec(i).is_white_spec()),
    {
        proof {
            self.lemma_side_masks();
        }
        self.bits(Square::WPawn) | self.bits(Square::WRook) | self.bits(Square::WKnight)
            | self.bits(Square::WBisshop) | self.bits(Square::WQueen) | self.bits(Square::WKing)
    }

    /// Mask of all black pieces.
    pub fn black(&self) -> (r: u64)
        requires
            self.wf(),
        ensures
            r == self.black_spec(),
            forall|i: u64|
                i < 64 ==> (#[trigger] bit(r, i) <==> self.at_spec(i).is_black_spec()),
    {
        proof {
            self.lemma_side_masks();
        }
        self.bits(Square::BPawn) | self.bits(Square::BRook) | self.bits(Square::BKnight)
            | self.bits(Square::BBisshop) | self.bits(Square::BQueen) | self.bits(Square::BKing)
    }

    /// Mask of all pieces of `player`.
    pub fn all_pieces(&self, player: Color) -> (r: u64)
        requires
            self.wf(),
        ensures
            r == self.pieces_spec(player),
            forall|i: u64|
                i < 64 ==> (#[trigger] bit(r, i) <==> self.at_spec(i).color_spec() == Some(
                    player,
                )),
    {
        match player {
            Color::White => self.white(),
            Color::Black => self.black(),
        }
    }

    /// Mask of all empty squares.
    pub fn empty(&self) -> (r: u64)
        requires
            self.wf(),
        ensures
            r == self.empty_spec(),
            forall|i: u64|
                i < 64 ==> (#[trigger] bit(r, i) <==> self.at_spec(i) == Square::Empty),
    {
        proof {
            self.lemma_side_masks();
        }
        self.bits(Square::Empty)
    }

    /// How many pieces of kind `piece` stand on the board.
    pub fn piece_count(&self, piece: Square) -> (r: u32)
        requires
            piece != Square::OffBoard,
        ensures
            r == count_bits(self.bitfields[piece.index_spec()]),
    {
        popcount(self.bits(piece))
    }

    /// The positions of the squares `bits` holds, in row-major order.
    pub fn iter(bits: u64) -> (r: Vec<Pos>)
        ensures
            forall|k: int| 0 <= k < r@.len() ==> (#[trigger] r@[k]).valid(),
            forall|k: int|
                0 <= k < r@.len() ==> bit(bits, (#[trigger] r@[k]).index_spec() as u64),
            forall|k1: int, k2: int|
                0 <= k1 < k2 < r@.len() ==> r@[k1].index_spec() < r@[k2].index_spec(),
            forall|j: u64|
                j < 64 && #[trigger] bit(bits, j) ==> exists|k: int|
                    0 <= k < r@.len() && (#[trigger] r@[k]).index_spec() == j,
    {
        let idx = iter_bitfield(bits);
        let mut r: Vec<Pos> = Vec::new();
        let mut n: usize = 0;
        while n < idx.len()
            invariant
                n <= idx@.len(),
                forall|k: int| 0 <= k < idx@.len() ==> idx@[k] < 64 && bit(bits, #[trigger] idx@[k] as u64),
                forall|k1: int, k2: int| 0 <= k1 < k2 < idx@.len() ==> idx@[k1] < idx@[k2],
                forall|j: u64| j < 64 && #[trigger] bit(bits, j) ==> idx@.contains(j as u8),
                r@.len() == n,
                forall|k: int|
                    0 <= k < n ==> (#[trigger] r@[k]).valid() && r@[k].index_spec() == idx@[k],
            decreases idx@.len() - n,
        {
            let p = Pos::from_index(idx[n] as usize);
            r.push(p);
            n += 1;
        }
        proof {
            assert forall|j: u64| j < 64 && #[trigger] bit(bits, j) implies exists|k: int|
                0 <= k < r@.len() && (#[trigger] r@[k]).index_spec() == j by {
                let k = choose|k: int| 0 <= k < idx@.len() && idx@[k] == j as u8;
                assert(r@[k].index_spec() == j);
            }
        }
        r
    }

    // _______________________________________________________ leapers

    /// Squares a king standing on `king` reaches: the 3x3 neighbourhood,
    /// including the king square itself.
    pub open spec fn king_vector_spec(king: u64) -> u64 {
        let a1 = king | sh_n_spec(king);
        let a2 = a1 | sh_s_spec(a1);
        let a3 = a2 | sh_e_spec(a2);
        a3 | sh_w_spec(a3)
    }

    /// Squares a knight standing on `knights` reaches.
    pub open spec fn knight_vector_spec(knights: u64) -> u64 {
        let e = sh_e_spec(knights);
        let w = sh_w_spec(knights);
        let ee = sh_e_spec(e);
        let ww = sh_w_spec(w);
        sh_n_spec(sh_n_spec(e | w) | ee | ww) | sh_s_spec(sh_s_spec(e | w) | ee | ww)
    }

    pub fn king_vector(&self, king: u64) -> (r: u64)
        ensures
            r == Self::king_vector_spec(king),
    {
        let mut acc = king;
        acc = acc | sh_n(acc);
        acc = acc | sh_s(acc);
        acc = acc | sh_e(acc);
        acc | sh_w(acc)
    }

    pub fn knight_vector(&self, knights: u64) -> (r: u64)
        ensures
            r == Self::knight_vector_spec(knights),
    {
        let e = sh_e(knights);
        let w = sh_w(knights);
        let ee = sh_e(e);
        let ww = sh_w(w);
        sh_n(sh_n(e | w) | ee | ww) | sh_s(sh_s(e | w) | ee | ww)
    }

    // _______________________________________________________ sliders

    /// Cast rays from every square of `bits` in direction `d`, up to seven
    /// steps, passing only through squares empty on this board.
    pub open spec fn slide_spec(self, bits: u64, d: Dir) -> u64 {
        slide_acc(bits, self.empty_spec(), d, 7)
    }

    /// Ray cast by repeated shifting, masked against empty squares.
    pub fn slide(&self, bits: u64, d: Dir) -> (r: u64)
        requires
            self.wf(),
        ensures
            r == self.slide_spec(bits, d),
    {
        let empty = self.empty();

        let mut cursor = dshift(d, bits);
        let mut acc = cursor;

        let mut t: u64 = 1;
        while t < 7
            invariant
                self.wf(),
                1 <= t <= 7,
                empty == self.empty_spec(),
                cursor == stepped(bits, empty, d, t as nat),
                acc == slide_acc(bits, empty, d, t as nat),
            decreases 7 - t,
        {
            cursor = dshift(d, cursor & empty);
            acc = acc | cursor;
            t += 1;
        }
        acc
    }

    /// Squares a rook standing on `bits` reaches.
    pub open spec fn rook_vector_spec(self, bits: u64) -> u64 {
        self.slide_spec(bits, Dir::N) | self.slide_spec(bits, Dir::E) | self.slide_spec(
            bits,
            Dir::S,
        ) | self.slide_spec(bits, Dir::W)
    }

    /// Squares a bishop standing on `bits` reaches.
    pub open spec fn bisshop_vector_spec(self, bits: u64) -> u64 {
        self.slide_spec(bits, Dir::NE) | self.slide_spec(bits, Dir::SE) | self.slide_spec(
            bits,
            Dir::SW,
        ) | self.slide_spec(bits, Dir::NW)
    }

    /// Squares a queen standing on `queen` reaches.
    pub open spec fn queen_vector_spec(self, queen: u64) -> u64 {
        self.bisshop_vector_spec(queen) | self.rook_vector_spec(queen)
    }

    pub fn rook_vector(&self, bits: u64) -> (r: u64)
        requires
            self.wf(),
        ensures
            r == self.rook_vector_spec(bits),
    {
        self.slide(bits, Dir::N) | self.slide(bits, Dir::E) | self.slide(bits, Dir::S)
            | self.slide(bits, Dir::W)
    }

    pub fn bisshop_vector(&self, bits: u64) -> (r: u64)
        requires
            self.wf(),
        ensures
            r == self.bisshop_vector_spec(bits),
    {
        self.slide(bits, Dir::NE) | self.slide(bits, Dir::SE) | self.slide(bits, Dir::SW)
            | self.slide(bits, Dir::NW)
    }

    pub fn queen_vector(&self, queen: u64) -> (r: u64)
        requires
            self.wf(),
        ensures
            r == self.queen_vector_spec(queen),
    {
        self.bisshop_vector(queen) | self.rook_vector(queen)
    }

    // _______________________________________________________ per-piece moves

    /// Moves of the king of the side owning `player`-mask: its reach minus
    /// the side's own pieces.
    pub open spec fn king_moves_spec(self, king: u64, player: u64) -> u64 {
        Self::king_vector_spec(king) & !player
    }

    pub open spec fn knight_moves_spec(self, knights: u64, player: u64) -> u64 {
        Self::knight_vector_spec(knights) & !player
    }

    pub open spec fn rook_moves_spec(self, rooks: u64, player: u64) -> u64 {
        self.rook_vector_spec(rooks) & !player
    }

    pub open spec fn bisshop_moves_spec(self, bisshops: u64, player: u64) -> u64 {
        self.bisshop_vector_spec(bisshops) & !player
    }

    pub open spec fn queen_moves_spec(self, queen: u64, player: u64) -> u64 {
        self.queen_vector_spec(queen) & !player
    }

    fn king_moves(&self, king: u64, player: u64) -> (r: u64)
        requires
            self.wf(),
        ensures
            r == self.king_moves_spec(king, player),
    {
        self.king_vector(king) & !player
    }

    fn knight_moves(&self, knights: u64, player: u64) -> (r: u64)
        requires
            self.wf(),
        ensures
            r == self.knight_moves_spec(knights, player),
    {
        self.knight_vector(knights) & !player
    }

    fn rook_moves(&self, rooks: u64, player: u64) -> (r: u64)
        requires
            self.wf(),
        ensures
            r == self.rook_moves_spec(rooks, player),
    {
        self.rook_vector(rooks) & !player
    }

    pub fn bisshop_moves(&self, bisshops: u64, player: u64) -> (r: u64)
        requires
            self.wf(),
        ensures
            r == self.bisshop_moves_spec(bisshops, player),
    {
        self.bisshop_vector(bisshops) & !player
    }

    pub fn queen_moves(&self, queen: u64, player: u64) -> (r: u64)
        requires
            self.wf(),
        ensures
            r == self.queen_moves_spec(queen, player),
    {
        self.queen_vector(queen) & !player
    }

    pub fn w_king_moves(&self) -> (r: u64)
        requires
            self.wf(),
        ensures
            r == self.king_moves_spec(self.bitfields[6], self.white_spec()),
    {
        let w = self.white();
        self.king_moves(self.bits(Square::WKing), w)
    }

    pub fn b_king_moves(&self) -> (r: u64)
        requires
            self.wf(),
        ensures
            r == self.king_moves_spec(self.bitfields[12], self.black_spec()),
    {
        let b = self.black();
        self.king_moves(self.bits(Square::BKing), b)
    }

    pub fn w_knight_moves(&self) -> (r: u64)
        requires
            self.wf(),
        ensures
            r == self.knight_moves_spec(self.bitfields[3], self.white_spec()),
    {
        let w = self.white();
        self.knight_moves(self.bits(Square::WKnight), w)
    }

    pub fn b_knight_moves(&self) -> (r: u64)
        requires
            self.wf(),
        ensures
            r == self.knight_moves_spec(self.bitfields[9], self.black_spec()),
    {
        let b = self.black();
        self.knight_moves(self.bits(Square::BKnight), b)
    }

    pub fn w_rook_moves(&self) -> (r: u64)
        requires
            self.wf(),
        ensures
            r == self.rook_moves_spec(self.bitfields[2], self.white_spec()),
    {
        let w = self.white();
        self.rook_moves(self.bits(Square::WRook), w)
    }

    pub fn b_rook_moves(&self) -> (r: u64)
        requires
            self.wf(),
        ensures
            r == self.rook_moves_spec(self.bitfields[8], self.black_spec()),
    {
        let b = self.black();
        self.rook_moves(self.bits(Square::BRook), b)
    }

    pub fn w_bisshop_moves(&self) -> (r: u64)
        requires
            self.wf(),
        ensures
            r == self.bisshop_moves_spec(self.bitfields[4], self.white_spec()),
    {
        let w = self.white();
        self.bisshop_moves(self.bits(Square::WBisshop), w)
    }

    pub fn b_bisshop_moves(&self) -> (r: u64)
        requires
            self.wf(),
        ensures
            r == self.bisshop_moves_spec(self.bitfields[10], self.black_spec()),
    {
        let b = self.black();
        self.bisshop_moves(self.bits(Square::BBisshop), b)
    }

    // _______________________________________________________ pawns

    pub open spec fn w_pawn_push1_spec(self) -> u64 {
        sh_n_spec(self.bitfields[1]) & self.empty_spec()
    }

    pub open spec fn w_pawn_push2_spec(self) -> u64 {
        sh_n_spec(sh_n_spec(self.bitfields[1] & ROW1) & self.empty_spec()) & self.empty_spec()
    }

    pub open spec fn w_pawn_push_spec(self) -> u64 {
        self.w_pawn_push1_spec() | self.w_pawn_push2_spec()
    }

    pub open spec fn b_pawn_push1_spec(self) -> u64 {
        sh_s_spec(self.bitfields[7]) & self.empty_spec()
    }

    pub open spec fn b_pawn_push2_spec(self) -> u64 {
        sh_s_spec(sh_s_spec(self.bitfields[7] & ROW6) & self.empty_spec()) & self.empty_spec()
    }

    pub open spec fn b_pawn_push_spec(self) -> u64 {
        self.b_pawn_push1_spec() | self.b_pawn_push2_spec()
    }

    pub open spec fn w_pawn_attack_ne_spec(self) -> u64 {
        sh_ne_spec(self.bitfields[1]) & self.black_spec()
    }

    pub open spec fn w_pawn_attack_nw_spec(self) -> u64 {
        sh_nw_spec(self.bitfields[1]) & self.black_spec()
    }

    pub open spec fn w_pawn_attack_spec(self) -> u64 {
        self.w_pawn_attack_ne_spec() | self.w_pawn_attack_nw_spec()
    }

    pub open spec fn b_pawn_attack_se_spec(self) -> u64 {
        sh_se_spec(self.bitfields[7]) & self.white_spec()
    }

    pub open spec fn b_pawn_attack_sw_spec(self) -> u64 {
        sh_sw_spec(self.bitfields[7]) & self.white_spec()
    }

    pub open spec fn b_pawn_attack_spec(self) -> u64 {
        self.b_pawn_attack_se_spec() | self.b_pawn_attack_sw_spec()
    }

    pub open spec fn w_pawn_reach_spec(self) -> u64 {
        self.w_pawn_push_spec() | sh_ne_spec(self.bitfields[1]) | sh_nw_spec(self.bitfields[1])
    }

    pub open spec fn b_pawn_reach_spec(self) -> u64 {
        self.b_pawn_push_spec() | sh_se_spec(self.bitfields[7]) | sh_sw_spec(self.bitfields[7])
    }

    pub fn w_pawn_push1(&self) -> (r: u64)
        requires
            self.wf(),
        ensures
            r == self.w_pawn_push1_spec(),
    {
        sh_n(self.bits(Square::WPawn)) & self.empty()
    }

    pub fn w_pawn_push2(&self) -> (r: u64)
        requires
            self.wf(),
        ensures
            r == self.w_pawn_push2_spec(),
    {
        sh_n(sh_n(self.bits(Square::WPawn) & ROW1) & self.empty()) & self.empty()
    }

    pub fn w_pawn_push(&self) -> (r: u64)
        requires
            self.wf(),
        ensures
            r == self.w_pawn_push_spec(),
    {
        self.w_pawn_push1() | self.w_pawn_push2()
    }

    pub fn b_pawn_push1(&self) -> (r: u64)
        requires
            self.wf(),
        ensures
            r == self.b_pawn_push1_spec(),
    {
        sh_s(self.bits(Square::BPawn)) & self.empty()
    }

    pub fn b_pawn_push2(&self) -> (r: u64)
        requires
            self.wf(),
        ensures
            r == self.b_pawn_push2_spec(),
    {
        sh_s(sh_s(self.bits(Square::BPawn) & ROW6) & self.empty()) & self.empty()
    }

    pub fn b_pawn_push(&self) -> (r: u64)
        requires
            self.wf(),
        ensures
            r == self.b_pawn_push_spec(),
    {
        self.b_pawn_push1() | self.b_pawn_push2()
    }

    pub fn w_pawn_attack_ne(&self) -> (r: u64)
        requires
            self.wf(),
        ensures
            r == self.w_pawn_attack_ne_spec(),
    {
        sh_ne(self.bits(Square::WPawn)) & self.black()
    }

    pub fn w_pawn_attack_nw(&self) -> (r: u64)
        requires
            self.wf(),
        ensures
            r == self.w_pawn_attack_nw_spec(),
    {
        sh_nw(self.bits(Square::WPawn)) & self.black()
    }

    pub fn w_pawn_attack(&self) -> (r: u64)
        requires
            self.wf(),
        ensures
            r == self.w_pawn_attack_spec(),
    {
        self.w_pawn_attack_ne() | self.w_pawn_attack_nw()
    }

    pub fn b_pawn_attack_se(&self) -> (r: u64)
        requires
            self.wf(),
        ensures
            r == self.b_pawn_attack_se_spec(),
    {
        sh_se(self.bits(Square::BPawn)) & self.white()
    }

    pub fn b_pawn_attack_sw(&self) -> (r: u64)
        requires
            self.wf(),
        ensures
            r == self.b_pawn_attack_sw_spec(),
    {
        sh_sw(self.bits(Square::BPawn)) & self.white()
    }

    pub fn b_pawn_attack(&self) -> (r: u64)
        requires
            self.wf(),
        ensures
            r == self.b_pawn_attack_spec(),
    {
        self.b_pawn_attack_se() | self.b_pawn_attack_sw()
    }

    pub fn w_pawn_move(&self) -> (r: u64)
        requires
            self.wf(),
        ensures
            r == self.w_pawn_push_spec() | self.w_pawn_attack_spec(),
    {
        self.w_pawn_push() | self.w_pawn_attack()
    }

    pub fn b_pawn_move(&self) -> (r: u64)
        requires
            self.wf(),
        ensures
            r == self.b_pawn_push_spec() | self.b_pawn_attack_spec(),
    {
        self.b_pawn_push() | self.b_pawn_attack()
    }

    fn w_pawn_reach(&self) -> (r: u64)
        requires
            self.wf(),
        ensures
            r == self.w_pawn_reach_spec(),
    {
        let pawns = self.bits(Square::WPawn);
        self.w_pawn_push() | sh_ne(pawns) | sh_nw(pawns)
    }

    fn b_pawn_reach(&self) -> (r: u64)
        requires
            self.wf(),
        ensures
            r == self.b_pawn_reach_spec(),
    {
        let pawns = self.bits(Square::BPawn);
        self.b_pawn_push() | sh_se(pawns) | sh_sw(pawns)
    }

    // _______________________________________________________ attack vectors

    /// Union of the squares white's pieces reach.
    pub open spec fn w_attack_vector_spec(self) -> u64 {
        Self::king_vector_spec(self.bitfields[6]) | self.bisshop_vector_spec(
            self.bitfields[5] | self.bitfields[4],
        ) | self.rook_vector_spec(self.bitfields[5] | self.bitfields[2])
            | Self::knight_vector_spec(self.bitfields[3]) | self.w_pawn_reach_spec()
    }

    /// Union of the squares black's pieces reach.
    pub open spec fn b_attack_vector_spec(self) -> u64 {
        Self::king_vector_spec(self.bitfields[12]) | self.bisshop_vector_spec(
            self.bitfields[11] | self.bitfields[10],
        ) | self.rook_vector_spec(self.bitfields[11] | self.bitfields[8])
            | Self::knight_vector_spec(self.bitfields[9]) | self.b_pawn_reach_spec()
    }

    pub open spec fn attack_vector_spec(self, player: Color) -> u64 {
        match player {
            Color::White => self.w_attack_vector_spec(),
            Color::Black => self.b_attack_vector_spec(),
        }
    }

    pub fn w_attack_vector(&self) -> (r: u64)
        requires
            self.wf(),
        ensures
            r == self.w_attack_vector_spec(),
    {
        self.king_vector(self.bits(Square::WKing)) | self.bisshop_vector(
            self.bits(Square::WQueen) | self.bits(Square::WBisshop),
        ) | self.rook_vector(self.bits(Square::WQueen) | self.bits(Square::WRook))
            | self.knight_vector(self.bits(Square::WKnight)) | self.w_pawn_reach()
    }

    pub fn b_attack_vector(&self) -> (r: u64)
        requires
            self.wf(),
        ensures
            r == self.b_attack_vector_spec(),
    {
        self.king_vector(self.bits(Square::BKing)) | self.bisshop_vector(
            self.bits(Square::BQueen) | self.bits(Square::BBisshop),
        ) | self.rook_vector(self.bits(Square::BQueen) | self.bits(Square::BRook))
            | self.knight_vector(self.bits(Square::BKnight)) | self.b_pawn_reach()
    }

    pub fn attack_vector(&self, player: Color) -> (r: u64)
        requires
            self.wf(),
        ensures
            r == self.attack_vector_spec(player),
    {
        match player {
            Color::White => self.w_attack_vector(),
            Color::Black => self.b_attack_vector(),
        }
    }

    /// Does any piece of `player.opposite()` reach `player`'s king?
    pub fn is_check(&self, player: Color) -> (r: bool)
        requires
            self.wf(),
        ensures
            r == self.in_check_spec(player),
    {
        let av = self.attack_vector(player.opposite());
        let kings = self.bits(player.king());
        proof {
            lemma_sq_of_index();
            lemma_bit_ops(av, kings);
            let m = av & kings;
            if m != 0 {
                lemma_nonzero_has_bit(m);
                let i = choose|i: u64| i < 64 && #[trigger] bit(m, i);
                self.lemma_at(i);
                assert(self.holds(player.king_spec().index_spec(), i));
                assert(self.at_spec(i) == player.king_spec() && bit(
                    self.attack_vector_spec(player.opposite_spec()),
                    i,
                ));
            }
            if exists|i: u64|
                i < 64 && #[trigger] self.at_spec(i) == player.king_spec() && bit(
                    self.attack_vector_spec(player.opposite_spec()),
                    i,
                ) {
                let i = choose|i: u64|
                    i < 64 && #[trigger] self.at_spec(i) == player.king_spec() && bit(
                        self.attack_vector_spec(player.opposite_spec()),
                        i,
                    );
                self.lemma_at(i);
                assert(self.holds(player.king_spec().index_spec(), i));
                assert(bit(m, i));
                lemma_const_bits();
                assert(m != 0) by {
                    if m == 0 {
                        assert(!bit(0u64, i));
                    }
                }
            }
        }
        (av & kings) != 0
    }

    /// Does `player` still have a king on the board?
    pub fn has_king(&self, player: Color) -> (r: bool)
        requires
            self.wf(),
        ensures
            r == exists|i: u64| i < 64 && #[trigger] self.at_spec(i) == player.king_spec(),
    {
        self.has_piece(player.king())
    }

    /// Position of `player`'s (lowest-indexed) king.
    pub fn king_position(&self, player: Color) -> (r: Pos)
        requires
            self.wf(),
            exists|i: u64| i < 64 && #[trigger] self.at_spec(i) == player.king_spec(),
        ensures
            r.valid(),
            self.at_spec(r.index_spec() as u64) == player.king_spec(),
            forall|j: u64| j < r.index_spec() ==> self.at_spec(j) != player.king_spec(),
    {
        let kings = self.bits(player.king());
        proof {
            lemma_sq_of_index();
            let i = choose|i: u64| i < 64 && #[trigger] self.at_spec(i) == player.king_spec();
            self.lemma_at(i);
            assert(bit(kings, i));
            lemma_const_bits();
            assert(kings != 0) by {
                if kings == 0 {
                    assert(!bit(0u64, i));
                }
            }
            vstd::std_specs::bits::axiom_u64_trailing_zeros(kings);
        }
        let tz = kings.trailing_zeros();
        let r = Pos::from_index(tz as usize);
        proof {
            self.lemma_at(tz as u64);
            assert(bit(kings, tz as u64));
            assert(self.holds(player.king_spec().index_spec(), tz as u64));
            assert forall|j: u64| j < r.index_spec() implies self.at_spec(j)
                != player.king_spec() by {
                self.lemma_at(j);
                assert((kings >> j) & 1u64 == 0u64);
                assert(!self.holds(player.king_spec().index_spec(), j));
            }
        }
        r
    }
}

// ___________________________________________________________ board values

/// The mask `x` with squares `f` and `t` removed.
pub open spec fn clear2(x: u64, f: u64, t: u64) -> u64 {
    x & !((1u64 << f) | (1u64 << t))
}

impl Board {
    /// Mask `k` after the move `m`: both endpoints cleared everywhere, the
    /// origin joins the empty mask, the destination the mover's mask.
    pub open spec fn mask_after(self, m: Move, k: int) -> u64 {
        let f = m.from.index_spec() as u64;
        let t = m.to.index_spec() as u64;
        let c = clear2(self.bitfields[k], f, t);
        if k == 0 {
            c | (1u64 << f)
        } else if k == m.piece.index_spec() {
            c | (1u64 << t)
        } else {
            c
        }
    }

    /// The board after playing `m`, as a value.
    pub open spec fn with_move_spec(self, m: Move) -> Board {
        Board {
            bitfields: [
                self.mask_after(m, 0),
                self.mask_after(m, 1),
                self.mask_after(m, 2),
                self.mask_after(m, 3),
                self.mask_after(m, 4),
                self.mask_after(m, 5),
                self.mask_after(m, 6),
                self.mask_after(m, 7),
                self.mask_after(m, 8),
                self.mask_after(m, 9),
                self.mask_after(m, 10),
                self.mask_after(m, 11),
                self.mask_after(m, 12),
            ],
        }
    }

    /// Two well-formed boards with the same piece on every square are the
    /// same value.
    pub proof fn lemma_board_ext(b1: Board, b2: Board)
        requires
            b1.wf(),
            b2.wf(),
            forall|i: u64| i < 64 ==> b1.at_spec(i) == b2.at_spec(i),
        ensures
            b1 == b2,
    {
        assert forall|k: int| 0 <= k < 13 implies b1.bitfields[k] == b2.bitfields[k] by {
            assert forall|i: u64| i < 64 implies (bit(b1.bitfields[k], i) <==> bit(
                b2.bitfields[k],
                i,
            )) by {
                b1.lemma_at(i);
                b2.lemma_at(i);
                assert(b1.holds(k, i) == bit(b1.bitfields[k], i));
                assert(b2.holds(k, i) == bit(b2.bitfields[k], i));
            }
            lemma_bit_ext(b1.bitfields[k], b2.bitfields[k]);
        }
        assert(b1.bitfields =~= b2.bitfields);
    }

    /// `with_move_spec` is well formed and moves exactly one piece.
    pub proof fn lemma_with_move_spec(self, m: Move)
        requires
            self.wf(),
            m.valid_spec(),
            m.piece != Square::Empty,
            m.piece != Square::OffBoard,
        ensures
            self.with_move_spec(m).wf(),
            forall|j: u64|
                j < 64 ==> self.with_move_spec(m).at_spec(j) == (if j == m.from.index_spec() {
                    Square::Empty
                } else if j == m.to.index_spec() {
                    m.piece
                } else {
                    self.at_spec(j)
                }),
    {
        let fin = self.with_move_spec(m);
        let f = m.from.index_spec() as u64;
        let t = m.to.index_spec() as u64;
        let single_f = 1u64 << f;
        let single_t = 1u64 << t;
        lemma_single_bit(f);
        lemma_single_bit(t);
        lemma_sq_of_index();
        assert forall|k: int, j: u64| 0 <= k < 13 && j < 64 implies (#[trigger] fin.holds(k, j)
            <==> (if j == f {
            k == 0
        } else if j == t {
            k == m.piece.index_spec()
        } else {
            self.holds(k, j)
        })) by {
            lemma_bit_ops(single_f, single_t);
            lemma_bit_ops(single_f | single_t, 0);
            lemma_bit_ops(self.bitfields[k], !(single_f | single_t));
            let c = clear2(self.bitfields[k], f, t);
            lemma_bit_ops(c, single_f);
            lemma_bit_ops(c, single_t);
            assert(fin.bitfields[k] == self.mask_after(m, k));
            assert(self.holds(k, j) == bit(self.bitfields[k], j));
        }
        assert forall|j: u64| j < 64 implies #[trigger] fin.covered(j) by {
            if j == f {
                assert(fin.holds(0, j));
            } else if j == t {
                assert(fin.holds(m.piece.index_spec(), j));
            } else {
                self.lemma_at(j);
                assert(fin.holds(self.at_spec(j).index_spec(), j));
            }
        }
        assert(fin.wf());
        assert forall|j: u64| j < 64 implies fin.at_spec(j) == (if j == m.from.index_spec() {
            Square::Empty
        } else if j == m.to.index_spec() {
            m.piece
        } else {
            self.at_spec(j)
        }) by {
            fin.lemma_at(j);
            if j == f {
                assert(fin.holds(0, j));
            } else if j == t {
                assert(fin.holds(m.piece.index_spec(), j));
            } else {
                self.lemma_at(j);
                assert(fin.holds(self.at_spec(j).index_spec(), j));
            }
        }
    }

    /// Is `player`'s king on a square the other side reaches?
    pub open spec fn in_check_spec(self, player: Color) -> bool {
        exists|i: u64|
            i < 64 && #[trigger] self.at_spec(i) == player.king_spec() && bit(
                self.attack_vector_spec(player.opposite_spec()),
                i,
            )
    }

    /// The piece standing on the starting position's square `i`.
    pub open spec fn starting_at(i: u64) -> Square {
        let r = i / 8;
        let c = i % 8;
        if r == 0 {
            Self::white_rank(c)
        } else if r == 1 {
            Square::WPawn
        } else if r == 6 {
            Square::BPawn
        } else if r == 7 {
            Self::black_rank(c)
        } else {
            Square::Empty
        }
    }

    pub open spec fn white_rank(c: u64) -> Square {
        if c == 0 {
            Square::WRook
        } else if c == 1 {
            Square::WKnight
        } else if c == 2 {
            Square::WBisshop
        } else if c == 3 {
            Square::WKing
        } else if c == 4 {
            Square::WQueen
        } else if c == 5 {
            Square::WBisshop
        } else if c == 6 {
            Square::WKnight
        } else {
            Square::WRook
        }
    }

    pub open spec fn black_rank(c: u64) -> Square {
        if c == 0 {
            Square::BRook
        } else if c == 1 {
            Square::BKnight
        } else if c == 2 {
            Square::BBisshop
        } else if c == 3 {
            Square::BKing
        } else if c == 4 {
            Square::BQueen
        } else if c == 5 {
            Square::BBisshop
        } else if c == 6 {
            Square::BKnight
        } else {
            Square::BRook
        }
    }

    /// The usual starting position (king on the d file).
    pub fn starting_position() -> (r: Board)
        ensures
            r.wf(),
            forall|i: u64| i < 64 ==> r.at_spec(i) == Self::starting_at(i),
    {
        let mut b = Self::new();
        b.set(pos(0, 0), Square::WRook);
        b.set(pos(0, 1), Square::WKnight);
        b.set(pos(0, 2), Square::WBisshop);
        b.set(pos(0, 3), Square::WKing);
        b.set(pos(0, 4), Square::WQueen);
        b.set(pos(0, 5), Square::WBisshop);
        b.set(pos(0, 6), Square::WKnight);
        b.set(pos(0, 7), Square::WRook);

        let mut c: u8 = 0;
        while c < 8
            invariant
                b.wf(),
                c <= 8,
                forall|i: u64|
                    i < 64 ==> b.at_spec(i) == (if i / 8 == 1 && i % 8 < c {
                        Square::WPawn
                    } else if i / 8 == 6 && i % 8 < c {
                        Square::BPawn
                    } else if i / 8 == 0 {
                        Self::white_rank(i % 8)
                    } else {
                        Square::Empty
                    }),
            decreases 8 - c,
        {
            b.set(pos(1, c), Square::WPawn);
            b.set(pos(6, c), Square::BPawn);
            c += 1;
        }

        b.set(pos(7, 0), Square::BRook);
        b.set(pos(7, 1), Square::BKnight);
        b.set(pos(7, 2), Square::BBisshop);
        b.set(pos(7, 3), Square::BKing);
        b.set(pos(7, 4), Square::BQueen);
        b.set(pos(7, 5), Square::BBisshop);
        b.set(pos(7, 6), Square::BKnight);
        b.set(pos(7, 7), Square::BRook);

        b
    }
}

// ___________________________________________________________ move generation

impl Board {
    /// What the pawn masks say, square by square.
    pub proof fn lemma_pawn_masks(self)
        requires
            self.wf(),
        ensures
            forall|t: u64|
                t < 64 ==> (#[trigger] bit(self.w_pawn_push1_spec(), t) <==> (t >= 8
                    && self.at_spec((t - 8) as u64) == Square::WPawn && self.at_spec(t)
                    == Square::Empty)),
            forall|t: u64|
                t < 64 ==> (#[trigger] bit(self.w_pawn_push2_spec(), t) <==> (t >= 16 && (t - 16)
                    / 8 == 1 && self.at_spec((t - 16) as u64) == Square::WPawn && self.at_spec(
                    (t - 8) as u64,
                ) == Square::Empty && self.at_spec(t) == Square::Empty)),
            forall|t: u64|
                t < 64 ==> (#[trigger] bit(self.w_pawn_attack_ne_spec(), t) <==> (t >= 9 && t % 8
                    >= 1 && self.at_spec((t - 9) as u64) == Square::WPawn && self.at_spec(
                    t,
                ).is_black_spec())),
            forall|t: u64|
                t < 64 ==> (#[trigger] bit(self.w_pawn_attack_nw_spec(), t) <==> (t >= 7 && t % 8
                    <= 6 && self.at_spec((t - 7) as u64) == Square::WPawn && self.at_spec(
                    t,
                ).is_black_spec())),
            forall|t: u64|
                t < 64 ==> (#[trigger] bit(self.b_pawn_push1_spec(), t) <==> (t < 56
                    && self.at_spec((t + 8) as u64) == Square::BPawn && self.at_spec(t)
                    == Square::Empty)),
            forall|t: u64|
                t < 64 ==> (#[trigger] bit(self.b_pawn_push2_spec(), t) <==> (t < 48 && (t + 16)
                    / 8 == 6 && self.at_spec((t + 16) as u64) == Square::BPawn && self.at_spec(
                    (t + 8) as u64,
                ) == Square::Empty && self.at_spec(t) == Square::Empty)),
            forall|t: u64|
                t < 64 ==> (#[trigger] bit(self.b_pawn_attack_se_spec(), t) <==> (t < 57 && t % 8
                    >= 1 && self.at_spec((t + 7) as u64) == Square::BPawn && self.at_spec(
                    t,
                ).is_white_spec())),
            forall|t: u64|
                t < 64 ==> (#[trigger] bit(self.b_pawn_attack_sw_spec(), t) <==> (t < 55 && t % 8
                    <= 6 && self.at_spec((t + 9) as u64) == Square::BPawn && self.at_spec(
                    t,
                ).is_white_spec())),
    {
        let wp = self.bitfields[1];
        let bp = self.bitfields[7];
        let e = self.empty_spec();
        self.lemma_side_masks();
        lemma_row_masks();
        assert forall|j: u64| j < 64 implies (#[trigger] bit(wp, j) <==> self.at_spec(j)
            == Square::WPawn) by {
            self.lemma_at(j);
            assert(self.holds(1, j) == bit(wp, j));
            lemma_sq_of_index();
        }
        assert forall|j: u64| j < 64 implies (#[trigger] bit(bp, j) <==> self.at_spec(j)
            == Square::BPawn) by {
            self.lemma_at(j);
            assert(self.holds(7, j) == bit(bp, j));
            lemma_sq_of_index();
        }
        lemma_sh_n(wp);
        lemma_bit_ops(sh_n_spec(wp), e);
        lemma_bit_ops(wp, ROW1);
        lemma_sh_n(wp & ROW1);
        lemma_bit_ops(sh_n_spec(wp & ROW1), e);
        lemma_sh_n(sh_n_spec(wp & ROW1) & e);
        lemma_bit_ops(sh_n_spec(sh_n_spec(wp & ROW1) & e), e);
        lemma_sh_ne(wp);
        lemma_bit_ops(sh_ne_spec(wp), self.black_spec());
        lemma_sh_nw(wp);
        lemma_bit_ops(sh_nw_spec(wp), self.black_spec());
        lemma_sh_s(bp);
        lemma_bit_ops(sh_s_spec(bp), e);
        lemma_bit_ops(bp, ROW6);
        lemma_sh_s(bp & ROW6);
        lemma_bit_ops(sh_s_spec(bp & ROW6), e);
        lemma_sh_s(sh_s_spec(bp & ROW6) & e);
        lemma_bit_ops(sh_s_spec(sh_s_spec(bp & ROW6) & e), e);
        lemma_sh_se(bp);
        lemma_bit_ops(sh_se_spec(bp), self.white_spec());
        lemma_sh_sw(bp);
        lemma_bit_ops(sh_sw_spec(bp), self.white_spec());
        assert forall|t: u64| t < 64 implies (#[trigger] bit(self.w_pawn_push1_spec(), t) <==> (t
            >= 8 && self.at_spec((t - 8) as u64) == Square::WPawn && self.at_spec(t)
            == Square::Empty)) by {
            assert(bit(e, t) <==> self.at_spec(t) == Square::Empty);
            if t >= 8 {
                assert(bit(wp, (t - 8) as u64) <==> self.at_spec((t - 8) as u64)
                    == Square::WPawn);
            }
        }
        assert forall|t: u64| t < 64 implies (#[trigger] bit(self.w_pawn_push2_spec(), t) <==> (t
            >= 16 && (t - 16) / 8 == 1 && self.at_spec((t - 16) as u64) == Square::WPawn
            && self.at_spec((t - 8) as u64) == Square::Empty && self.at_spec(t) == Square::Empty))
            by {
            assert(bit(e, t) <==> self.at_spec(t) == Square::Empty);
            if t >= 16 {
                assert(bit(wp, (t - 16) as u64) <==> self.at_spec((t - 16) as u64)
                    == Square::WPawn);
                assert(bit(ROW1, (t - 16) as u64) <==> (t - 16) / 8 == 1);
                assert(bit(e, (t - 8) as u64) <==> self.at_spec((t - 8) as u64) == Square::Empty);
            }
        }
        assert forall|t: u64| t < 64 implies (#[trigger] bit(self.w_pawn_attack_ne_spec(), t)
            <==> (t >= 9 && t % 8 >= 1 && self.at_spec((t - 9) as u64) == Square::WPawn
            && self.at_spec(t).is_black_spec())) by {
            assert(bit(self.black_spec(), t) <==> self.at_spec(t).is_black_spec());
            if t >= 9 {
                assert(bit(wp, (t - 9) as u64) <==> self.at_spec((t - 9) as u64)
                    == Square::WPawn);
            }
        }
        assert forall|t: u64| t < 64 implies (#[trigger] bit(self.w_pawn_attack_nw_spec(), t)
            <==> (t >= 7 && t % 8 <= 6 && self.at_spec((t - 7) as u64) == Square::WPawn
            && self.at_spec(t).is_black_spec())) by {
            assert(bit(self.black_spec(), t) <==> self.at_spec(t).is_black_spec());
            if t >= 7 {
                assert(bit(wp, (t - 7) as u64) <==> self.at_spec((t - 7) as u64)
                    == Square::WPawn);
            }
        }
        assert forall|t: u64| t < 64 implies (#[trigger] bit(self.b_pawn_push1_spec(), t) <==> (t
            < 56 && self.at_spec((t + 8) as u64) == Square::BPawn && self.at_spec(t)
            == Square::Empty)) by {
            assert(bit(e, t) <==> self.at_spec(t) == Square::Empty);
            if t < 56 {
                assert(bit(bp, (t + 8) as u64) <==> self.at_spec((t + 8) as u64)
                    == Square::BPawn);
            }
        }
        assert forall|t: u64| t < 64 implies (#[trigger] bit(self.b_pawn_push2_spec(), t) <==> (t
            < 48 && (t + 16) / 8 == 6 && self.at_spec((t + 16) as u64) == Square::BPawn
            && self.at_spec((t + 8) as u64) == Square::Empty && self.at_spec(t) == Square::Empty))
            by {
            assert(bit(e, t) <==> self.at_spec(t) == Square::Empty);
            if t < 48 {
                assert(bit(bp, (t + 16) as u64) <==> self.at_spec((t + 16) as u64)
                    == Square::BPawn);
                assert(bit(ROW6, (t + 16) as u64) <==> (t + 16) / 8 == 6);
                assert(bit(e, (t + 8) as u64) <==> self.at_spec((t + 8) as u64) == Square::Empty);
            }
        }
        assert forall|t: u64| t < 64 implies (#[trigger] bit(self.b_pawn_attack_se_spec(), t)
            <==> (t < 57 && t % 8 >= 1 && self.at_spec((t + 7) as u64) == Square::BPawn
            && self.at_spec(t).is_white_spec())) by {
            assert(bit(self.white_spec(), t) <==> self.at_spec(t).is_white_spec());
            if t < 57 {
                assert(bit(bp, (t + 7) as u64) <==> self.at_spec((t + 7) as u64)
                    == Square::BPawn);
            }
        }
        assert forall|t: u64| t < 64 implies (#[trigger] bit(self.b_pawn_attack_sw_spec(), t)
            <==> (t < 55 && t % 8 <= 6 && self.at_spec((t + 9) as u64) == Square::BPawn
            && self.at_spec(t).is_white_spec())) by {
            assert(bit(self.white_spec(), t) <==> self.at_spec(t).is_white_spec());
            if t < 55 {
                assert(bit(bp, (t + 9) as u64) <==> self.at_spec((t + 9) as u64)
                    == Square::BPawn);
            }
        }
    }

    /// Destination mask for one leaper or slider standing on `single`, for
    /// the side whose pieces are `player`.
    pub open spec fn dest_mask_spec(self, piece: Square, single: u64, player: u64) -> u64 {
        match piece {
            Square::WKing | Square::BKing => Self::king_vector_spec(single) & !player,
            Square::WKnight | Square::BKnight => Self::knight_vector_spec(single) & !player,
            Square::WRook | Square::BRook => self.rook_vector_spec(single) & !player,
            Square::WBisshop | Square::BBisshop => self.bisshop_vector_spec(single) & !player,
            Square::WQueen | Square::BQueen => self.queen_vector_spec(single) & !player,
            _ => 0,
        }
    }

    fn dest_mask(&self, piece: Square, single: u64, player: u64) -> (r: u64)
        requires
            self.wf(),
        ensures
            r == self.dest_mask_spec(piece, single, player),
    {
        match piece {
            Square::WKing | Square::BKing => self.king_moves(single, player),
            Square::WKnight | Square::BKnight => self.knight_moves(single, player),
            Square::WRook | Square::BRook => self.rook_moves(single, player),
            Square::WBisshop | Square::BBisshop => self.bisshop_moves(single, player),
            Square::WQueen | Square::BQueen => self.queen_moves(single, player),
            _ => 0,
        }
    }

    /// No destination of a piece is occupied by its own side.
    proof fn lemma_dest_no_own(self, piece: Square, single: u64, player: u64)
        ensures
            forall|t: u64|
                t < 64 && #[trigger] bit(self.dest_mask_spec(piece, single, player), t) ==> !bit(
                    player,
                    t,
                ),
    {
        lemma_bit_ops(player, 0);
        lemma_bit_ops(Self::king_vector_spec(single), !player);
        lemma_bit_ops(Self::knight_vector_spec(single), !player);
        lemma_bit_ops(self.rook_vector_spec(single), !player);
        lemma_bit_ops(self.bisshop_vector_spec(single), !player);
        lemma_bit_ops(self.queen_vector_spec(single), !player);
        lemma_const_bits();
    }

    /// Is `m` a move of a non-pawn piece that the generator emits?
    pub open spec fn gen_nonpawn_spec(self, m: Move, player: u64) -> bool {
        bit(self.bitfields[m.piece.index_spec()], m.from.index_spec() as u64) && bit(
            self.dest_mask_spec(m.piece, 1u64 << (m.from.index_spec() as u64), player),
            m.to.index_spec() as u64,
        )
    }

    /// Is `m` a white pawn move that the generator emits?
    pub open spec fn gen_w_pawn_spec(self, m: Move) -> bool {
        let f = m.from.index_spec();
        let t = m.to.index_spec();
        (bit(self.w_pawn_push1_spec(), t as u64) && f == t - 8) || (bit(
            self.w_pawn_push2_spec(),
            t as u64,
        ) && f == t - 16) || (bit(self.w_pawn_attack_ne_spec(), t as u64) && f == t - 9) || (bit(
            self.w_pawn_attack_nw_spec(),
            t as u64,
        ) && f == t - 7)
    }

    /// Is `m` a black pawn move that the generator emits?
    pub open spec fn gen_b_pawn_spec(self, m: Move) -> bool {
        let f = m.from.index_spec();
        let t = m.to.index_spec();
        (bit(self.b_pawn_push1_spec(), t as u64) && f == t + 8) || (bit(
            self.b_pawn_push2_spec(),
            t as u64,
        ) && f == t + 16) || (bit(self.b_pawn_attack_se_spec(), t as u64) && f == t + 7) || (bit(
            self.b_pawn_attack_sw_spec(),
            t as u64,
        ) && f == t + 9)
    }

    /// Is `m` among the pseudo-legal moves the generator emits for `c`?
    pub open spec fn gen_move_spec(self, c: Color, m: Move) -> bool {
        m.from.valid() && m.to.valid() && (match c {
            Color::White => (m.piece == Square::WPawn && self.gen_w_pawn_spec(m)) || ((m.piece
                == Square::WKing || m.piece == Square::WKnight || m.piece == Square::WRook
                || m.piece == Square::WBisshop || m.piece == Square::WQueen)
                && self.gen_nonpawn_spec(m, self.white_spec())),
            Color::Black => (m.piece == Square::BPawn && self.gen_b_pawn_spec(m)) || ((m.piece
                == Square::BKing || m.piece == Square::BKnight || m.piece == Square::BRook
                || m.piece == Square::BBisshop || m.piece == Square::BQueen)
                && self.gen_nonpawn_spec(m, self.black_spec())),
        })
    }

    /// Every generated move is playable: its endpoints are on the board and
    /// distinct, its piece belongs to the moving side and stands on the
    /// origin square.
    pub proof fn lemma_gen_move_ok(self, c: Color, m: Move)
        requires
            self.wf(),
            self.gen_move_spec(c, m),
        ensures
            m.valid_spec(),
            m.piece != Square::Empty,
            m.piece != Square::OffBoard,
            m.piece.color_spec() == Some(c),
            self.at_spec(m.from.index_spec() as u64) == m.piece,
    {
        let f = m.from.index_spec() as u64;
        let t = m.to.index_spec() as u64;
        self.lemma_pawn_masks();
        self.lemma_side_masks();
        self.lemma_at(f);
        lemma_sq_of_index();
        if m.piece == Square::WPawn || m.piece == Square::BPawn {
            assert(self.holds(m.piece.index_spec(), f));
        } else {
            assert(self.holds(m.piece.index_spec(), f));
            let player = if c == Color::White {
                self.white_spec()
            } else {
                self.black_spec()
            };
            self.lemma_dest_no_own(m.piece, 1u64 << f, player);
            assert(bit(player, f));
            assert(f != t);
        }
    }

    /// Append, for each square of `mask`, the move of `piece` ending there
    /// and starting `off` squares lower.
    fn unpack_pawn_up(piece: Square, mask: u64, off: u8, buf: &mut Vec<Move>)
        requires
            piece != Square::Empty,
            1 <= off,
            forall|t: u64| t < 64 && #[trigger] bit(mask, t) ==> t >= off,
        ensures
            forall|m: Move|
                final(buf)@.contains(m) <==> (old(buf)@.contains(m) || (m.piece == piece
                    && m.from.valid() && m.to.valid() && bit(mask, m.to.index_spec() as u64)
                    && m.from.index_spec() == m.to.index_spec() - off)),
            final(buf)@.len() >= old(buf)@.len(),
            forall|kk: int| 0 <= kk < old(buf)@.len() ==> final(buf)@[kk] == old(buf)@[kk],
            forall|kk: int|
                old(buf)@.len() <= kk < final(buf)@.len() ==> (#[trigger] final(buf)@[kk]).piece
                    == piece && final(buf)@[kk].from.index_spec()
                    == final(buf)@[kk].to.index_spec() - off,
            forall|kk1: int, kk2: int|
                old(buf)@.len() <= kk1 < kk2 < final(buf)@.len() ==> final(buf)@[
                    kk1].to.index_spec() < final(buf)@[kk2].to.index_spec(),
    {
        let tos = iter_bitfield(mask);
        let ghost base = buf@.len() as int;
        let mut n: usize = 0;
        while n < tos.len()
            invariant
                piece != Square::Empty,
                1 <= off,
                forall|t: u64| t < 64 && #[trigger] bit(mask, t) ==> t >= off,
                n <= tos@.len(),
                forall|k: int| 0 <= k < tos@.len() ==> tos@[k] < 64 && bit(mask, #[trigger] tos@[k] as u64),
                forall|k1: int, k2: int| 0 <= k1 < k2 < tos@.len() ==> tos@[k1] < tos@[k2],
                forall|j: u64| j < 64 && #[trigger] bit(mask, j) ==> tos@.contains(j as u8),
                base == old(buf)@.len(),
                buf@.len() == base + n,
                forall|kk: int| 0 <= kk < base ==> buf@[kk] == old(buf)@[kk],
                forall|n2: int|
                    0 <= n2 < n ==> (#[trigger] buf@[base + n2]).piece == piece && buf@[base
                        + n2].to.index_spec() == tos@[n2] && buf@[base + n2].from.index_spec()
                        == tos@[n2] - off,
                forall|m: Move|
                    buf@.contains(m) <==> (old(buf)@.contains(m) || (m.piece == piece
                        && m.from.valid() && m.to.valid() && bit(mask, m.to.index_spec() as u64)
                        && m.from.index_spec() == m.to.index_spec() - off && (exists|k: int|
                        0 <= k < n && tos@[k] as int == m.to.index_spec()))),
            decreases tos@.len() - n,
        {
            let ti = tos[n];
            let to = Pos::from_index(ti as usize);
            let from = Pos::from_index((ti - off) as usize);
            let m0 = Move::new(piece, from, to);
            let ghost pre = buf@;
            buf.push(m0);
            proof {
                assert(m0.to.index_spec() == ti as int && m0.from.index_spec() == ti - off);
                assert forall|m: Move|
                    buf@.contains(m) <==> (old(buf)@.contains(m) || (m.piece == piece
                        && m.from.valid() && m.to.valid() && bit(mask, m.to.index_spec() as u64)
                        && m.from.index_spec() == m.to.index_spec() - off && (exists|k: int|
                        0 <= k < n + 1 && tos@[k] as int == m.to.index_spec()))) by {
                    let shape = m.piece == piece && m.from.valid() && m.to.valid() && bit(
                        mask,
                        m.to.index_spec() as u64,
                    ) && m.from.index_spec() == m.to.index_spec() - off;
                    if buf@.contains(m) {
                        let k = choose|k: int| 0 <= k < buf@.len() && buf@[k] == m;
                        if k < pre.len() {
                            assert(pre[k] == m);
                            assert(pre.contains(m));
                        } else {
                            assert(m == m0);
                            assert(tos@[n as int] as int == m.to.index_spec());
                        }
                    }
                    if pre.contains(m) {
                        let k = choose|k: int| 0 <= k < pre.len() && pre[k] == m;
                        assert(buf@[k] == m);
                        assert(buf@.contains(m));
                    }
                    if shape && (exists|k: int|
                        0 <= k < n + 1 && tos@[k] as int == m.to.index_spec()) && !pre.contains(
                        m,
                    ) {
                        let k = choose|k: int| 0 <= k < n + 1 && tos@[k] as int
                            == m.to.index_spec();
                        assert(k == n) by {
                            if k < n {
                                assert(pre.contains(m));
                            }
                        }
                        crate::pos::lemma_pos_index_inj(m.to, m0.to);
                        crate::pos::lemma_pos_index_inj(m.from, m0.from);
                        assert(m == m0);
                        assert(buf@[buf@.len() - 1] == m);
                    }
                }
            }
            n += 1;
        }
        proof {
            assert forall|m: Move|
                buf@.contains(m) <==> (old(buf)@.contains(m) || (m.piece == piece
                    && m.from.valid() && m.to.valid() && bit(mask, m.to.index_spec() as u64)
                    && m.from.index_spec() == m.to.index_spec() - off)) by {
                if m.piece == piece && m.from.valid() && m.to.valid() && bit(
                    mask,
                    m.to.index_spec() as u64,
                ) && m.from.index_spec() == m.to.index_spec() - off {
                    assert(tos@.contains(m.to.index_spec() as u8));
                    let k = choose|k: int|
                        0 <= k < tos@.len() && tos@[k] == m.to.index_spec() as u8;
                    assert(tos@[k] as int == m.to.index_spec());
                }
            }
            assert forall|kk: int|
                old(buf)@.len() <= kk < buf@.len() implies (#[trigger] buf@[kk]).piece == piece
                && buf@[kk].from.index_spec() == buf@[kk].to.index_spec() - off by {
                assert(buf@[base + (kk - base)].piece == piece);
            }
            assert forall|kk1: int, kk2: int|
                old(buf)@.len() <= kk1 < kk2 < buf@.len() implies buf@[kk1].to.index_spec()
                < buf@[kk2].to.index_spec() by {
                assert(buf@[base + (kk1 - base)].to.index_spec() == tos@[kk1 - base]);
                assert(buf@[base + (kk2 - base)].to.index_spec() == tos@[kk2 - base]);
            }
        }
    }
}

impl Board {
    /// Append, for each square of `mask`, the move of `piece` ending there
    /// and starting `off` squares higher.
    fn unpack_pawn_down(piece: Square, mask: u64, off: u8, buf: &mut Vec<Move>)
        requires
            piece != Square::Empty,
            1 <= off,
            forall|t: u64| t < 64 && #[trigger] bit(mask, t) ==> t + off < 64,
        ensures
            forall|m: Move|
                final(buf)@.contains(m) <==> (old(buf)@.contains(m) || (m.piece == piece
                    && m.from.valid() && m.to.valid() && bit(mask, m.to.index_spec() as u64)
                    && m.from.index_spec() == m.to.index_spec() + off)),
            final(buf)@.len() >= old(buf)@.len(),
            forall|kk: int| 0 <= kk < old(buf)@.len() ==> final(buf)@[kk] == old(buf)@[kk],
            forall|kk: int|
                old(buf)@.len() <= kk < final(buf)@.len() ==> (#[trigger] final(buf)@[kk]).piece
                    == piece && final(buf)@[kk].from.index_spec()
                    == final(buf)@[kk].to.index_spec() + off,
            forall|kk1: int, kk2: int|
                old(buf)@.len() <= kk1 < kk2 < final(buf)@.len() ==> final(buf)@[
                    kk1].to.index_spec() < final(buf)@[kk2].to.index_spec(),
    {
        let tos = iter_bitfield(mask);
        let ghost base = buf@.len() as int;
        let mut n: usize = 0;
        while n < tos.len()
            invariant
                piece != Square::Empty,
                1 <= off,
                forall|t: u64| t < 64 && #[trigger] bit(mask, t) ==> t + off < 64,
                n <= tos@.len(),
                forall|k: int| 0 <= k < tos@.len() ==> tos@[k] < 64 && bit(mask, #[trigger] tos@[k] as u64),
                forall|k1: int, k2: int| 0 <= k1 < k2 < tos@.len() ==> tos@[k1] < tos@[k2],
                forall|j: u64| j < 64 && #[trigger] bit(mask, j) ==> tos@.contains(j as u8),
                base == old(buf)@.len(),
                buf@.len() == base + n,
                forall|kk: int| 0 <= kk < base ==> buf@[kk] == old(buf)@[kk],
                forall|n2: int|
                    0 <= n2 < n ==> (#[trigger] buf@[base + n2]).piece == piece && buf@[base
                        + n2].to.index_spec() == tos@[n2] && buf@[base + n2].from.index_spec()
                        == tos@[n2] + off,
                forall|m: Move|
                    buf@.contains(m) <==> (old(buf)@.contains(m) || (m.piece == piece
                        && m.from.valid() && m.to.valid() && bit(mask, m.to.index_spec() as u64)
                        && m.from.index_spec() == m.to.index_spec() + off && (exists|k: int|
                        0 <= k < n && tos@[k] as int == m.to.index_spec()))),
            decreases tos@.len() - n,
        {
            let ti = tos[n];
            let to = Pos::from_index(ti as usize);
            let from = Pos::from_index((ti + off) as usize);
            let m0 = Move::new(piece, from, to);
            let ghost pre = buf@;
            buf.push(m0);
            proof {
                assert(m0.to.index_spec() == ti as int && m0.from.index_spec() == ti + off);
                assert forall|m: Move|
                    buf@.contains(m) <==> (old(buf)@.contains(m) || (m.piece == piece
                        && m.from.valid() && m.to.valid() && bit(mask, m.to.index_spec() as u64)
                        && m.from.index_spec() == m.to.index_spec() + off && (exists|k: int|
                        0 <= k < n + 1 && tos@[k] as int == m.to.index_spec()))) by {
                    if buf@.contains(m) {
                        let k = choose|k: int| 0 <= k < buf@.len() && buf@[k] == m;
                        if k < pre.len() {
                            assert(pre[k] == m);
                            assert(pre.contains(m));
                        } else {
                            assert(m == m0);
                            assert(tos@[n as int] as int == m.to.index_spec());
                        }
                    }
                    if pre.contains(m) {
                        let k = choose|k: int| 0 <= k < pre.len() && pre[k] == m;
                        assert(buf@[k] == m);
                        assert(buf@.contains(m));
                    }
                    if m.piece == piece && m.from.valid() && m.to.valid() && bit(
                        mask,
                        m.to.index_spec() as u64,
                    ) && m.from.index_spec() == m.to.index_spec() + off && (exists|k: int|
                        0 <= k < n + 1 && tos@[k] as int == m.to.index_spec()) && !pre.contains(
                        m,
                    ) {
                        let k = choose|k: int| 0 <= k < n + 1 && tos@[k] as int
                            == m.to.index_spec();
                        assert(k == n) by {
                            if k < n {
                                assert(pre.contains(m));
                            }
                        }
                        crate::pos::lemma_pos_index_inj(m.to, m0.to);
                        crate::pos::lemma_pos_index_inj(m.from, m0.from);
                        assert(m == m0);
                        assert(buf@[buf@.len() - 1] == m);
                    }
                }
            }
            n += 1;
        }
        proof {
            assert forall|m: Move|
                buf@.contains(m) <==> (old(buf)@.contains(m) || (m.piece == piece
                    && m.from.valid() && m.to.valid() && bit(mask, m.to.index_spec() as u64)
                    && m.from.index_spec() == m.to.index_spec() + off)) by {
                if m.piece == piece && m.from.valid() && m.to.valid() && bit(
                    mask,
                    m.to.index_spec() as u64,
                ) && m.from.index_spec() == m.to.index_spec() + off {
                    assert(tos@.contains(m.to.index_spec() as u8));
                    let k = choose|k: int|
                        0 <= k < tos@.len() && tos@[k] == m.to.index_spec() as u8;
                    assert(tos@[k] as int == m.to.index_spec());
                }
            }
            assert forall|kk: int|
                old(buf)@.len() <= kk < buf@.len() implies (#[trigger] buf@[kk]).piece == piece
                && buf@[kk].from.index_spec() == buf@[kk].to.index_spec() + off by {
                assert(buf@[base + (kk - base)].piece == piece);
            }
            assert forall|kk1: int, kk2: int|
                old(buf)@.len() <= kk1 < kk2 < buf@.len() implies buf@[kk1].to.index_spec()
                < buf@[kk2].to.index_spec() by {
                assert(buf@[base + (kk1 - base)].to.index_spec() == tos@[kk1 - base]);
                assert(buf@[base + (kk2 - base)].to.index_spec() == tos@[kk2 - base]);
            }
        }
    }

    /// Append every move of the non-pawn piece kind `piece`, whose side owns
    /// exactly the squares of `player`.
    fn unpack(&self, piece: Square, player: u64, buf: &mut Vec<Move>)
        requires
            self.wf(),
            piece != Square::Empty,
            piece != Square::OffBoard,
            forall|j: u64|
                j < 64 && #[trigger] bit(self.bitfields[piece.index_spec()], j) ==> bit(player, j),
        ensures
            forall|m: Move|
                (#[trigger] final(buf)@.contains(m)) <==> (old(buf)@.contains(m) || (m.piece
                    == piece && m.from.valid() && m.to.valid() && self.gen_nonpawn_spec(
                    m,
                    player,
                ))),
            final(buf)@.len() >= old(buf)@.len(),
            forall|kk: int| 0 <= kk < old(buf)@.len() ==> final(buf)@[kk] == old(buf)@[kk],
            forall|kk: int|
                old(buf)@.len() <= kk < final(buf)@.len() ==> (#[trigger] final(buf)@[kk]).piece
                    == piece,
            forall|kk1: int, kk2: int|
                old(buf)@.len() <= kk1 < kk2 < final(buf)@.len() ==> final(buf)@[
                    kk1].from.index_spec() < final(buf)@[kk2].from.index_spec() || (final(buf)@[
                    kk1].from.index_spec() == final(buf)@[kk2].from.index_spec() && final(buf)@[
                    kk1].to.index_spec() < final(buf)@[kk2].to.index_spec()),
    {
        let bits_ = self.bits(piece);
        let froms = iter_bitfield(bits_);
        let mut n: usize = 0;
        while n < froms.len()
            invariant
                self.wf(),
                piece != Square::Empty,
                piece != Square::OffBoard,
                bits_ == self.bitfields[piece.index_spec()],
                forall|j: u64| j < 64 && #[trigger] bit(bits_, j) ==> bit(player, j),
                n <= froms@.len(),
                forall|k: int|
                    0 <= k < froms@.len() ==> froms@[k] < 64 && bit(
                        bits_,
                        #[trigger] froms@[k] as u64,
                    ),
                forall|j: u64| j < 64 && #[trigger] bit(bits_, j) ==> froms@.contains(j as u8),
                forall|k1: int, k2: int| 0 <= k1 < k2 < froms@.len() ==> froms@[k1] < froms@[k2],
                buf@.len() >= old(buf)@.len(),
                forall|kk: int| 0 <= kk < old(buf)@.len() ==> buf@[kk] == old(buf)@[kk],
                forall|kk: int|
                    old(buf)@.len() <= kk < buf@.len() ==> ((#[trigger] buf@[kk]).piece == piece
                        && buf@[kk].from.valid() && buf@[kk].to.valid() && self.gen_nonpawn_spec(
                        buf@[kk],
                        player,
                    )),
                forall|kk: int|
                    old(buf)@.len() <= kk < buf@.len() ==> exists|k3: int|
                        0 <= k3 < n && (#[trigger] buf@[kk]).from.index_spec() == froms@[k3],
                forall|kk1: int, kk2: int|
                    old(buf)@.len() <= kk1 < kk2 < buf@.len() ==> buf@[kk1].from.index_spec()
                        < buf@[kk2].from.index_spec() || (buf@[kk1].from.index_spec() == buf@[
                        kk2].from.index_spec() && buf@[kk1].to.index_spec() < buf@[
                        kk2].to.index_spec()),
                forall|m: Move, k: int|
                    m.piece == piece && m.from.valid() && m.to.valid() && self.gen_nonpawn_spec(
                        m,
                        player,
                    ) && 0 <= k < n && (#[trigger] froms@[k]) as int == m.from.index_spec()
                        ==> #[trigger] buf@.contains(m),
            decreases froms@.len() - n,
        {
            let fi = froms[n];
            let from = Pos::from_index(fi as usize);
            let single = 1u64 << (fi as u64);
            let moves = self.dest_mask(piece, single, player);
            proof {
                self.lemma_dest_no_own(piece, single, player);
            }
            let tos = iter_bitfield(moves);
            let mut n2: usize = 0;
            while n2 < tos.len()
                invariant
                    self.wf(),
                    piece != Square::Empty,
                    piece != Square::OffBoard,
                    bits_ == self.bitfields[piece.index_spec()],
                    forall|j: u64| j < 64 && #[trigger] bit(bits_, j) ==> bit(player, j),
                    n < froms@.len(),
                    forall|k: int|
                        0 <= k < froms@.len() ==> froms@[k] < 64 && bit(
                            bits_,
                            #[trigger] froms@[k] as u64,
                        ),
                    forall|j: u64| j < 64 && #[trigger] bit(bits_, j) ==> froms@.contains(j as u8),
                    fi == froms@[n as int],
                    fi < 64,
                    bit(bits_, fi as u64),
                    from.valid(),
                    from.index_spec() == fi,
                    single == 1u64 << (fi as u64),
                    moves == self.dest_mask_spec(piece, single, player),
                    forall|t: u64| t < 64 && #[trigger] bit(moves, t) ==> !bit(player, t),
                    n2 <= tos@.len(),
                    forall|k: int|
                        0 <= k < tos@.len() ==> tos@[k] < 64 && bit(
                            moves,
                            #[trigger] tos@[k] as u64,
                        ),
                    forall|j: u64| j < 64 && #[trigger] bit(moves, j) ==> tos@.contains(j as u8),
                    forall|k1: int, k2: int| 0 <= k1 < k2 < tos@.len() ==> tos@[k1] < tos@[k2],
                    forall|k1: int, k2: int|
                        0 <= k1 < k2 < froms@.len() ==> froms@[k1] < froms@[k2],
                    buf@.len() >= old(buf)@.len(),
                    forall|kk: int| 0 <= kk < old(buf)@.len() ==> buf@[kk] == old(buf)@[kk],
                    forall|kk: int|
                        old(buf)@.len() <= kk < buf@.len() ==> ((#[trigger] buf@[kk]).piece
                            == piece && buf@[kk].from.valid() && buf@[kk].to.valid()
                            && self.gen_nonpawn_spec(buf@[kk], player)),
                    forall|kk: int|
                        old(buf)@.len() <= kk < buf@.len() ==> (#[trigger] buf@[
                        kk]).from.index_spec() < fi || (buf@[kk].from.index_spec() == fi && (
                        exists|k4: int| 0 <= k4 < n2 && buf@[kk].to.index_spec() == tos@[k4])),
                    forall|kk1: int, kk2: int|
                        old(buf)@.len() <= kk1 < kk2 < buf@.len() ==> buf@[kk1].from.index_spec()
                            < buf@[kk2].from.index_spec() || (buf@[kk1].from.index_spec() == buf@[
                            kk2].from.index_spec() && buf@[kk1].to.index_spec() < buf@[
                            kk2].to.index_spec()),
                    forall|m: Move, k: int|
                        m.piece == piece && m.from.valid() && m.to.valid()
                            && self.gen_nonpawn_spec(m, player) && 0 <= k < n && (
                        #[trigger] froms@[k]) as int == m.from.index_spec()
                            ==> #[trigger] buf@.contains(m),
                    forall|m: Move, k2: int|
                        m.piece == piece && m.from.valid() && m.to.valid()
                            && self.gen_nonpawn_spec(m, player) && m.from.index_spec() == fi && 0
                            <= k2 < n2 && (#[trigger] tos@[k2]) as int == m.to.index_spec()
                            ==> #[trigger] buf@.contains(m),
                decreases tos@.len() - n2,
            {
                let ti = tos[n2];
                let to = Pos::from_index(ti as usize);
                proof {
                    assert(bit(moves, ti as u64));
                    assert(!bit(player, ti as u64));
                    assert(bit(player, fi as u64));
                    assert(from != to) by {
                        if from == to {
                            assert(fi as int == ti as int);
                        }
                    }
                }
                let m0 = Move::new(piece, from, to);
                let ghost pre = buf@;
                buf.push(m0);
                proof {
                    assert(m0.from.index_spec() == fi as int && m0.to.index_spec() == ti as int);
                    assert(self.gen_nonpawn_spec(m0, player));
                    assert(buf@[buf@.len() - 1] == m0);
                    assert forall|m: Move| pre.contains(m) implies #[trigger] buf@.contains(m) by {
                        let k = choose|k: int| 0 <= k < pre.len() && pre[k] == m;
                        assert(buf@[k] == m);
                    }
                    assert forall|m: Move, k2: int|
                        m.piece == piece && m.from.valid() && m.to.valid()
                            && self.gen_nonpawn_spec(m, player) && m.from.index_spec() == fi && 0
                            <= k2 < n2 + 1 && (#[trigger] tos@[k2]) as int == m.to.index_spec()
                            implies #[trigger] buf@.contains(m) by {
                        if k2 == n2 {
                            crate::pos::lemma_pos_index_inj(m.to, m0.to);
                            crate::pos::lemma_pos_index_inj(m.from, m0.from);
                            assert(m == m0);
                        }
                    }
                }
                n2 += 1;
            }
            proof {
                assert forall|m: Move, k: int|
                    m.piece == piece && m.from.valid() && m.to.valid() && self.gen_nonpawn_spec(
                        m,
                        player,
                    ) && 0 <= k < n + 1 && (#[trigger] froms@[k]) as int == m.from.index_spec()
                    implies #[trigger] buf@.contains(m) by {
                    if k == n {
                        assert(bit(moves, m.to.index_spec() as u64));
                        assert(tos@.contains(m.to.index_spec() as u8));
                        let k2 = choose|k2: int|
                            0 <= k2 < tos@.len() && tos@[k2] == m.to.index_spec() as u8;
                        assert((tos@[k2]) as int == m.to.index_spec());
                    }
                }
            }
            n += 1;
        }
        proof {
            assert forall|m: Move|
                buf@.contains(m) <==> (old(buf)@.contains(m) || (m.piece == piece
                    && m.from.valid() && m.to.valid() && self.gen_nonpawn_spec(m, player))) by {
                if buf@.contains(m) {
                    let kk = choose|kk: int| 0 <= kk < buf@.len() && buf@[kk] == m;
                    if kk < old(buf)@.len() {
                        assert(old(buf)@[kk] == m);
                        assert(old(buf)@.contains(m));
                    }
                }
                if old(buf)@.contains(m) {
                    let kk = choose|kk: int| 0 <= kk < old(buf)@.len() && old(buf)@[kk] == m;
                    assert(buf@[kk] == m);
                    assert(buf@.contains(m));
                }
                if m.piece == piece && m.from.valid() && m.to.valid() && self.gen_nonpawn_spec(
                    m,
                    player,
                ) {
                    assert(bit(bits_, m.from.index_spec() as u64));
                    assert(froms@.contains(m.from.index_spec() as u8));
                    let k = choose|k: int|
                        0 <= k < froms@.len() && froms@[k] == m.from.index_spec() as u8;
                    assert((froms@[k]) as int == m.from.index_spec());
                    assert(buf@.contains(m));
                }
            }
        }
    }

    #[verifier::rlimit(100)]
    #[verifier::spinoff_prover]
    fn all_w_moves(&self, buf: &mut Vec<Move>)
        requires
            self.wf(),
        ensures
            forall|m: Move|
                final(buf)@.contains(m) <==> (old(buf)@.contains(m) || self.gen_move_spec(
                    Color::White,
                    m,
                )),
            final(buf)@.len() >= old(buf)@.len(),
            forall|kk: int| 0 <= kk < old(buf)@.len() ==> final(buf)@[kk] == old(buf)@[kk],
            forall|kk1: int, kk2: int|
                old(buf)@.len() <= kk1 < kk2 < final(buf)@.len() ==> final(buf)@[kk1]
                    != final(buf)@[kk2],
    {
        proof {
            self.lemma_pawn_masks();
            self.lemma_side_masks();
            assert forall|j: u64| j < 64 && #[trigger] bit(self.bitfields[6], j) implies bit(
                self.white_spec(),
                j,
            ) by {
                self.lemma_at(j);
                assert(self.holds(6, j) == bit(self.bitfields[6], j));
                lemma_sq_of_index();
            }
            assert forall|j: u64| j < 64 && #[trigger] bit(self.bitfields[3], j) implies bit(
                self.white_spec(),
                j,
            ) by {
                self.lemma_at(j);
                assert(self.holds(3, j) == bit(self.bitfields[3], j));
                lemma_sq_of_index();
            }
            assert forall|j: u64| j < 64 && #[trigger] bit(self.bitfields[2], j) implies bit(
                self.white_spec(),
                j,
            ) by {
                self.lemma_at(j);
                assert(self.holds(2, j) == bit(self.bitfields[2], j));
                lemma_sq_of_index();
            }
            assert forall|j: u64| j < 64 && #[trigger] bit(self.bitfields[4], j) implies bit(
                self.white_spec(),
                j,
            ) by {
                self.lemma_at(j);
                assert(self.holds(4, j) == bit(self.bitfields[4], j));
                lemma_sq_of_index();
            }
            assert forall|j: u64| j < 64 && #[trigger] bit(self.bitfields[5], j) implies bit(
                self.white_spec(),
                j,
            ) by {
                self.lemma_at(j);
                assert(self.holds(5, j) == bit(self.bitfields[5], j));
                lemma_sq_of_index();
            }
        }
        let white = self.white();
        let ghost b0 = buf@;
        Self::unpack_pawn_up(Square::WPawn, self.w_pawn_push1(), 8, buf);
        let ghost b1 = buf@;
        Self::unpack_pawn_up(Square::WPawn, self.w_pawn_push2(), 16, buf);
        let ghost b2 = buf@;
        Self::unpack_pawn_up(Square::WPawn, self.w_pawn_attack_ne(), 9, buf);
        let ghost b3 = buf@;
        Self::unpack_pawn_up(Square::WPawn, self.w_pawn_attack_nw(), 7, buf);
        let ghost b4 = buf@;
        self.unpack(Square::WKing, white, buf);
        let ghost b5 = buf@;
        self.unpack(Square::WKnight, white, buf);
        let ghost b6 = buf@;
        self.unpack(Square::WRook, white, buf);
        let ghost b7 = buf@;
        self.unpack(Square::WBisshop, white, buf);
        let ghost b8 = buf@;
        self.unpack(Square::WQueen, white, buf);
        proof {
            assert forall|m: Move|
                buf@.contains(m) <==> (b0.contains(m) || self.gen_move_spec(Color::White, m)) by {
                assert(b1.contains(m) <==> (b0.contains(m) || (m.piece == Square::WPawn
                    && m.from.valid() && m.to.valid() && bit(
                    self.w_pawn_push1_spec(),
                    m.to.index_spec() as u64,
                ) && m.from.index_spec() == m.to.index_spec() - 8)));
                assert(b2.contains(m) <==> (b1.contains(m) || (m.piece == Square::WPawn
                    && m.from.valid() && m.to.valid() && bit(
                    self.w_pawn_push2_spec(),
                    m.to.index_spec() as u64,
                ) && m.from.index_spec() == m.to.index_spec() - 16)));
                assert(b3.contains(m) <==> (b2.contains(m) || (m.piece == Square::WPawn
                    && m.from.valid() && m.to.valid() && bit(
                    self.w_pawn_attack_ne_spec(),
                    m.to.index_spec() as u64,
                ) && m.from.index_spec() == m.to.index_spec() - 9)));
                assert(b4.contains(m) <==> (b3.contains(m) || (m.piece == Square::WPawn
                    && m.from.valid() && m.to.valid() && bit(
                    self.w_pawn_attack_nw_spec(),
                    m.to.index_spec() as u64,
                ) && m.from.index_spec() == m.to.index_spec() - 7)));
                assert(b5.contains(m) <==> (b4.contains(m) || (m.piece == Square::WKing
                    && m.from.valid() && m.to.valid() && self.gen_nonpawn_spec(m, white))));
                assert(b6.contains(m) <==> (b5.contains(m) || (m.piece == Square::WKnight
                    && m.from.valid() && m.to.valid() && self.gen_nonpawn_spec(m, white))));
                assert(b7.contains(m) <==> (b6.contains(m) || (m.piece == Square::WRook
                    && m.from.valid() && m.to.valid() && self.gen_nonpawn_spec(m, white))));
                assert(b8.contains(m) <==> (b7.contains(m) || (m.piece == Square::WBisshop
                    && m.from.valid() && m.to.valid() && self.gen_nonpawn_spec(m, white))));
                assert(buf@.contains(m) <==> (b8.contains(m) || (m.piece == Square::WQueen
                    && m.from.valid() && m.to.valid() && self.gen_nonpawn_spec(m, white))));
            }
            assert forall|kk: int| b0.len() <= kk < b1.len() implies (#[trigger] buf@[kk]).piece
                == Square::WPawn && buf@[kk].from.index_spec() == buf@[kk].to.index_spec() - 8 by {
                assert(buf@[kk] == b1[kk]);
            }
            assert forall|kk: int| b1.len() <= kk < b2.len() implies (#[trigger] buf@[kk]).piece
                == Square::WPawn && buf@[kk].from.index_spec() == buf@[kk].to.index_spec() - 16 by {
                assert(buf@[kk] == b2[kk]);
            }
            assert forall|kk: int| b2.len() <= kk < b3.len() implies (#[trigger] buf@[kk]).piece
                == Square::WPawn && buf@[kk].from.index_spec() == buf@[kk].to.index_spec() - 9 by {
                assert(buf@[kk] == b3[kk]);
            }
            assert forall|kk: int| b3.len() <= kk < b4.len() implies (#[trigger] buf@[kk]).piece
                == Square::WPawn && buf@[kk].from.index_spec() == buf@[kk].to.index_spec() - 7 by {
                assert(buf@[kk] == b4[kk]);
            }
            assert forall|kk: int| b4.len() <= kk < b5.len() implies (#[trigger] buf@[kk]).piece
                == Square::WKing by {
                assert(buf@[kk] == b5[kk]);
            }
            assert forall|kk: int| b5.len() <= kk < b6.len() implies (#[trigger] buf@[kk]).piece
                == Square::WKnight by {
                assert(buf@[kk] == b6[kk]);
            }
            assert forall|kk: int| b6.len() <= kk < b7.len() implies (#[trigger] buf@[kk]).piece
                == Square::WRook by {
                assert(buf@[kk] == b7[kk]);
            }
            assert forall|kk: int| b7.len() <= kk < b8.len() implies (#[trigger] buf@[kk]).piece
                == Square::WBisshop by {
                assert(buf@[kk] == b8[kk]);
            }
            assert forall|kk: int| b8.len() <= kk < buf@.len() implies (#[trigger] buf@[kk]).piece
                == Square::WQueen by {
                
            }
            assert forall|kk1: int, kk2: int| b0.len() <= kk1 < kk2 < b1.len() implies buf@[
                kk1].to.index_spec() < buf@[kk2].to.index_spec() by {
                assert(buf@[kk1] == b1[kk1]);
                assert(buf@[kk2] == b1[kk2]);
            }
            assert forall|kk1: int, kk2: int| b1.len() <= kk1 < kk2 < b2.len() implies buf@[
                kk1].to.index_spec() < buf@[kk2].to.index_spec() by {
                assert(buf@[kk1] == b2[kk1]);
                assert(buf@[kk2] == b2[kk2]);
            }
            assert forall|kk1: int, kk2: int| b2.len() <= kk1 < kk2 < b3.len() implies buf@[
                kk1].to.index_spec() < buf@[kk2].to.index_spec() by {
                assert(buf@[kk1] == b3[kk1]);
                assert(buf@[kk2] == b3[kk2]);
            }
            assert forall|kk1: int, kk2: int| b3.len() <= kk1 < kk2 < b4.len() implies buf@[
                kk1].to.index_spec() < buf@[kk2].to.index_spec() by {
                assert(buf@[kk1] == b4[kk1]);
                assert(buf@[kk2] == b4[kk2]);
            }
            assert forall|kk1: int, kk2: int| b4.len() <= kk1 < kk2 < b5.len() implies buf@[
                kk1].from.index_spec() < buf@[kk2].from.index_spec() || (buf@[
                kk1].from.index_spec() == buf@[kk2].from.index_spec() && buf@[
                kk1].to.index_spec() < buf@[kk2].to.index_spec()) by {
                assert(buf@[kk1] == b5[kk1]);
                assert(buf@[kk2] == b5[kk2]);
            }
            assert forall|kk1: int, kk2: int| b5.len() <= kk1 < kk2 < b6.len() implies buf@[
                kk1].from.index_spec() < buf@[kk2].from.index_spec() || (buf@[
                kk1].from.index_spec() == buf@[kk2].from.index_spec() && buf@[
                kk1].to.index_spec() < buf@[kk2].to.index_spec()) by {
                assert(buf@[kk1] == b6[kk1]);
                assert(buf@[kk2] == b6[kk2]);
            }
            assert forall|kk1: int, kk2: int| b6.len() <= kk1 < kk2 < b7.len() implies buf@[
                kk1].from.index_spec() < buf@[kk2].from.index_spec() || (buf@[
                kk1].from.index_spec() == buf@[kk2].from.index_spec() && buf@[
                kk1].to.index_spec() < buf@[kk2].to.index_spec()) by {
                assert(buf@[kk1] == b7[kk1]);
                assert(buf@[kk2] == b7[kk2]);
            }
            assert forall|kk1: int, kk2: int| b7.len() <= kk1 < kk2 < b8.len() implies buf@[
                kk1].from.index_spec() < buf@[kk2].from.index_spec() || (buf@[
                kk1].from.index_spec() == buf@[kk2].from.index_spec() && buf@[
                kk1].to.index_spec() < buf@[kk2].to.index_spec()) by {
                assert(buf@[kk1] == b8[kk1]);
                assert(buf@[kk2] == b8[kk2]);
            }
            assert forall|kk1: int, kk2: int| b8.len() <= kk1 < kk2 < buf@.len() implies buf@[
                kk1].from.index_spec() < buf@[kk2].from.index_spec() || (buf@[
                kk1].from.index_spec() == buf@[kk2].from.index_spec() && buf@[
                kk1].to.index_spec() < buf@[kk2].to.index_spec()) by {
                
                
            }
            assert forall|kk1: int, kk2: int|
                b0.len() <= kk1 < kk2 < buf@.len() implies buf@[kk1] != buf@[kk2] by {
                if buf@[kk1] == buf@[kk2] {
                    assert(buf@[kk1].to == buf@[kk2].to && buf@[kk1].from == buf@[kk2].from);
                }
            }
        }
    }

    #[verifier::rlimit(100)]
    #[verifier::spinoff_prover]
    fn all_b_moves(&self, buf: &mut Vec<Move>)
        requires
            self.wf(),
        ensures
            forall|m: Move|
                final(buf)@.contains(m) <==> (old(buf)@.contains(m) || self.gen_move_spec(
                    Color::Black,
                    m,
                )),
            final(buf)@.len() >= old(buf)@.len(),
            forall|kk: int| 0 <= kk < old(buf)@.len() ==> final(buf)@[kk] == old(buf)@[kk],
            forall|kk1: int, kk2: int|
                old(buf)@.len() <= kk1 < kk2 < final(buf)@.len() ==> final(buf)@[kk1]
                    != final(buf)@[kk2],
    {
        proof {
            self.lemma_pawn_masks();
            self.lemma_side_masks();
            assert forall|j: u64| j < 64 && #[trigger] bit(self.bitfields[12], j) implies bit(
                self.black_spec(),
                j,
            ) by {
                self.lemma_at(j);
                assert(self.holds(12, j) == bit(self.bitfields[12], j));
                lemma_sq_of_index();
            }
            assert forall|j: u64| j < 64 && #[trigger] bit(self.bitfields[9], j) implies bit(
                self.black_spec(),
                j,
            ) by {
                self.lemma_at(j);
                assert(self.holds(9, j) == bit(self.bitfields[9], j));
                lemma_sq_of_index();
            }
            assert forall|j: u64| j < 64 && #[trigger] bit(self.bitfields[8], j) implies bit(
                self.black_spec(),
                j,
            ) by {
                self.lemma_at(j);
                assert(self.holds(8, j) == bit(self.bitfields[8], j));
                lemma_sq_of_index();
            }
            assert forall|j: u64| j < 64 && #[trigger] bit(self.bitfields[10], j) implies bit(
                self.black_spec(),
                j,
            ) by {
                self.lemma_at(j);
                assert(self.holds(10, j) == bit(self.bitfields[10], j));
                lemma_sq_of_index();
            }
            assert forall|j: u64| j < 64 && #[trigger] bit(self.bitfields[11], j) implies bit(
                self.black_spec(),
                j,
            ) by {
                self.lemma_at(j);
                assert(self.holds(11, j) == bit(self.bitfields[11], j));
                lemma_sq_of_index();
            }
        }
        let black = self.black();
        let ghost b0 = buf@;
        Self::unpack_pawn_down(Square::BPawn, self.b_pawn_push1(), 8, buf);
        let ghost b1 = buf@;
        Self::unpack_pawn_down(Square::BPawn, self.b_pawn_push2(), 16, buf);
        let ghost b2 = buf@;
        Self::unpack_pawn_down(Square::BPawn, self.b_pawn_attack_se(), 7, buf);
        let ghost b3 = buf@;
        Self::unpack_pawn_down(Square::BPawn, self.b_pawn_attack_sw(), 9, buf);
        let ghost b4 = buf@;
        self.unpack(Square::BKing, black, buf);
        let ghost b5 = buf@;
        self.unpack(Square::BKnight, black, buf);
        let ghost b6 = buf@;
        self.unpack(Square::BRook, black, buf);
        let ghost b7 = buf@;
        self.unpack(Square::BBisshop, black, buf);
        let ghost b8 = buf@;
        self.unpack(Square::BQueen, black, buf);
        proof {
            assert forall|m: Move|
                buf@.contains(m) <==> (b0.contains(m) || self.gen_move_spec(Color::Black, m)) by {
                assert(b1.contains(m) <==> (b0.contains(m) || (m.piece == Square::BPawn
                    && m.from.valid() && m.to.valid() && bit(
                    self.b_pawn_push1_spec(),
                    m.to.index_spec() as u64,
                ) && m.from.index_spec() == m.to.index_spec() + 8)));
                assert(b2.contains(m) <==> (b1.contains(m) || (m.piece == Square::BPawn
                    && m.from.valid() && m.to.valid() && bit(
                    self.b_pawn_push2_spec(),
                    m.to.index_spec() as u64,
                ) && m.from.index_spec() == m.to.index_spec() + 16)));
                assert(b3.contains(m) <==> (b2.contains(m) || (m.piece == Square::BPawn
                    && m.from.valid() && m.to.valid() && bit(
                    self.b_pawn_attack_se_spec(),
                    m.to.index_spec() as u64,
                ) && m.from.index_spec() == m.to.index_spec() + 7)));
                assert(b4.contains(m) <==> (b3.contains(m) || (m.piece == Square::BPawn
                    && m.from.valid() && m.to.valid() && bit(
                    self.b_pawn_attack_sw_spec(),
                    m.to.index_spec() as u64,
                ) && m.from.index_spec() == m.to.index_spec() + 9)));
                assert(b5.contains(m) <==> (b4.contains(m) || (m.piece == Square::BKing
                    && m.from.valid() && m.to.valid() && self.gen_nonpawn_spec(m, black))));
                assert(b6.contains(m) <==> (b5.contains(m) || (m.piece == Square::BKnight
                    && m.from.valid() && m.to.valid() && self.gen_nonpawn_spec(m, black))));
                assert(b7.contains(m) <==> (b6.contains(m) || (m.piece == Square::BRook
                    && m.from.valid() && m.to.valid() && self.gen_nonpawn_spec(m, black))));
                assert(b8.contains(m) <==> (b7.contains(m) || (m.piece == Square::BBisshop
                    && m.from.valid() && m.to.valid() && self.gen_nonpawn_spec(m, black))));
                assert(buf@.contains(m) <==> (b8.contains(m) || (m.piece == Square::BQueen
                    && m.from.valid() && m.to.valid() && self.gen_nonpawn_spec(m, black))));
            }
            assert forall|kk: int| b0.len() <= kk < b1.len() implies (#[trigger] buf@[kk]).piece
                == Square::BPawn && buf@[kk].from.index_spec() == buf@[kk].to.index_spec() + 8 by {
                assert(buf@[kk] == b1[kk]);
            }
            assert forall|kk: int| b1.len() <= kk < b2.len() implies (#[trigger] buf@[kk]).piece
                == Square::BPawn && buf@[kk].from.index_spec() == buf@[kk].to.index_spec() + 16 by {
                assert(buf@[kk] == b2[kk]);
            }
            assert forall|kk: int| b2.len() <= kk < b3.len() implies (#[trigger] buf@[kk]).piece
                == Square::BPawn && buf@[kk].from.index_spec() == buf@[kk].to.index_spec() + 7 by {
                assert(buf@[kk] == b3[kk]);
            }
            assert forall|kk: int| b3.len() <= kk < b4.len() implies (#[trigger] buf@[kk]).piece
                == Square::BPawn && buf@[kk].from.index_spec() == buf@[kk].to.index_spec() + 9 by {
                assert(buf@[kk] == b4[kk]);
            }
            assert forall|kk: int| b4.len() <= kk < b5.len() implies (#[trigger] buf@[kk]).piece
                == Square::BKing by {
                assert(buf@[kk] == b5[kk]);
            }
            assert forall|kk: int| b5.len() <= kk < b6.len() implies (#[trigger] buf@[kk]).piece
                == Square::BKnight by {
                assert(buf@[kk] == b6[kk]);
            }
            assert forall|kk: int| b6.len() <= kk < b7.len() implies (#[trigger] buf@[kk]).piece
                == Square::BRook by {
                assert(buf@[kk] == b7[kk]);
            }
            assert forall|kk: int| b7.len() <= kk < b8.len() implies (#[trigger] buf@[kk]).piece
                == Square::BBisshop by {
                assert(buf@[kk] == b8[kk]);
            }
            assert forall|kk: int| b8.len() <= kk < buf@.len() implies (#[trigger] buf@[kk]).piece
                == Square::BQueen by {
                
            }
            assert forall|kk1: int, kk2: int| b0.len() <= kk1 < kk2 < b1.len() implies buf@[
                kk1].to.index_spec() < buf@[kk2].to.index_spec() by {
                assert(buf@[kk1] == b1[kk1]);
                assert(buf@[kk2] == b1[kk2]);
            }
            assert forall|kk1: int, kk2: int| b1.len() <= kk1 < kk2 < b2.len() implies buf@[
                kk1].to.index_spec() < buf@[kk2].to.index_spec() by {
                assert(buf@[kk1] == b2[kk1]);
                assert(buf@[kk2] == b2[kk2]);
            }
            assert forall|kk1: int, kk2: int| b2.len() <= kk1 < kk2 < b3.len() implies buf@[
                kk1].to.index_spec() < buf@[kk2].to.index_spec() by {
                assert(buf@[kk1] == b3[kk1]);
                assert(buf@[kk2] == b3[kk2]);
            }
            assert forall|kk1: int, kk2: int| b3.len() <= kk1 < kk2 < b4.len() implies buf@[
                kk1].to.index_spec() < buf@[kk2].to.index_spec() by {
                assert(buf@[kk1] == b4[kk1]);
                assert(buf@[kk2] == b4[kk2]);
            }
            assert forall|kk1: int, kk2: int| b4.len() <= kk1 < kk2 < b5.len() implies buf@[
                kk1].from.index_spec() < buf@[kk2].from.index_spec() || (buf@[
                kk1].from.index_spec() == buf@[kk2].from.index_spec() && buf@[
                kk1].to.index_spec() < buf@[kk2].to.index_spec()) by {
                assert(buf@[kk1] == b5[kk1]);
                assert(buf@[kk2] == b5[kk2]);
            }
            assert forall|kk1: int, kk2: int| b5.len() <= kk1 < kk2 < b6.len() implies buf@[
                kk1].from.index_spec() < buf@[kk2].from.index_spec() || (buf@[
                kk1].from.index_spec() == buf@[kk2].from.index_spec() && buf@[
                kk1].to.index_spec() < buf@[kk2].to.index_spec()) by {
                assert(buf@[kk1] == b6[kk1]);
                assert(buf@[kk2] == b6[kk2]);
            }
            assert forall|kk1: int, kk2: int| b6.len() <= kk1 < kk2 < b7.len() implies buf@[
                kk1].from.index_spec() < buf@[kk2].from.index_spec() || (buf@[
                kk1].from.index_spec() == buf@[kk2].from.index_spec() && buf@[
                kk1].to.index_spec() < buf@[kk2].to.index_spec()) by {
                assert(buf@[kk1] == b7[kk1]);
                assert(buf@[kk2] == b7[kk2]);
            }
            assert forall|kk1: int, kk2: int| b7.len() <= kk1 < kk2 < b8.len() implies buf@[
                kk1].from.index_spec() < buf@[kk2].from.index_spec() || (buf@[
                kk1].from.index_spec() == buf@[kk2].from.index_spec() && buf@[
                kk1].to.index_spec() < buf@[kk2].to.index_spec()) by {
                assert(buf@[kk1] == b8[kk1]);
                assert(buf@[kk2] == b8[kk2]);
            }
            assert forall|kk1: int, kk2: int| b8.len() <= kk1 < kk2 < buf@.len() implies buf@[
                kk1].from.index_spec() < buf@[kk2].from.index_spec() || (buf@[
                kk1].from.index_spec() == buf@[kk2].from.index_spec() && buf@[
                kk1].to.index_spec() < buf@[kk2].to.index_spec()) by {
                
                
            }
            assert forall|kk1: int, kk2: int|
                b0.len() <= kk1 < kk2 < buf@.len() implies buf@[kk1] != buf@[kk2] by {
                if buf@[kk1] == buf@[kk2] {
                    assert(buf@[kk1].to == buf@[kk2].to && buf@[kk1].from == buf@[kk2].from);
                }
            }
        }
    }

    /// Every pseudo-legal move of `player`: moves that follow the movement
    /// rules and do not capture the mover's own pieces, but that may leave
    /// the mover's own king in check.
    pub fn collect_moves(&self, player: Color) -> (r: Vec<Move>)
        requires
            self.wf(),
        ensures
            forall|m: Move| r@.contains(m) <==> self.gen_move_spec(player, m),
            forall|k1: int, k2: int| 0 <= k1 < k2 < r@.len() ==> r@[k1] != r@[k2],
    {
        let mut moves: Vec<Move> = Vec::new();
        match player {
            Color::White => self.all_w_moves(&mut moves),
            Color::Black => self.all_b_moves(&mut moves),
        }
        moves
    }

    /// The same pseudo-legal moves, for callers that only walk them.
    pub fn iter_moves(&self, player: Color) -> (r: Vec<Move>)
        requires
            self.wf(),
        ensures
            forall|m: Move| r@.contains(m) <==> self.gen_move_spec(player, m),
            forall|k1: int, k2: int| 0 <= k1 < k2 < r@.len() ==> r@[k1] != r@[k2],
    {
        self.collect_moves(player)
    }
}

/// Check whether `player` is mated: every pseudo-legal move, once applied,
/// still leaves `player` in check. A position with no pseudo-legal moves at
/// all counts as mate. This is the slow oracle used to decide a game's
/// outcome, not a search primitive.
pub fn is_mate(board: &Board, player: Color) -> (r: bool)
    requires
        board.wf(),
    ensures
        r == forall|m: Move|
            board.gen_move_spec(player, m) ==> board.with_move_spec(m).in_check_spec(player),
{
    let moves = board.iter_moves(player);
    let mut n: usize = 0;
    while n < moves.len()
        invariant
            board.wf(),
            n <= moves@.len(),
            forall|m: Move| moves@.contains(m) <==> board.gen_move_spec(player, m),
            forall|k: int|
                0 <= k < n ==> board.with_move_spec(#[trigger] moves@[k]).in_check_spec(player),
        decreases moves@.len() - n,
    {
        let mv = moves[n];
        proof {
            assert(moves@.contains(mv));
            board.lemma_gen_move_ok(player, mv);
        }
        let b2 = board.with_move(mv);
        if !b2.is_check(player) {
            proof {
                assert(board.gen_move_spec(player, mv) && !board.with_move_spec(mv).in_check_spec(
                    player,
                ));
            }
            return false;
        }
        n += 1;
    }
    proof {
        assert forall|m: Move| board.gen_move_spec(player, m) implies board.with_move_spec(
            m,
        ).in_check_spec(player) by {
            assert(moves@.contains(m));
            let k = choose|k: int| 0 <= k < moves@.len() && moves@[k] == m;
            assert(board.with_move_spec(moves@[k]).in_check_spec(player));
        }
    }
    true
}

/// Bits of the all-ones and the all-zero mask.
proof fn lemma_const_bits()
    by (bit_vector)
    ensures
        forall|i: u64| i < 64 ==> #[trigger] bit(0xffff_ffff_ffff_ffffu64, i),
        forall|i: u64| i < 64 ==> !#[trigger] bit(0u64, i),
{
}

/// A non-zero mask holds some square.
proof fn lemma_nonzero_has_bit(x: u64)
    requires
        x != 0,
    ensures
        exists|i: u64| i < 64 && #[trigger] bit(x, i),
{
    if !(exists|i: u64| i < 64 && #[trigger] bit(x, i)) {
        lemma_const_bits();
        lemma_bit_ext(x, 0);
    }
}

impl core::str::FromStr for Board {
    type Err = crate::parser::ParseError;

    fn from_str(s: &str) -> Result<Self, crate::parser::ParseError> {
        crate::parser::parse_board(s)
    }
}

} // verus!
