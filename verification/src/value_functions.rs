use vstd::prelude::*;
use crate::bits::{count_bits, lemma_count_below_bound};
use crate::board::{sq_of, Board};
use crate::color::Color;
use crate::square::Square;

verus! {

/// Per-piece-kind and per-color masks of every square each side's pieces
/// reach, recomputed on demand from a board.
pub struct AttacVector {
    pub all: [u64; 2],
    pub bitfields: [u64; 13],
}

/// The reach of all pieces of kind `k` on the board, as one mask.
pub open spec fn per_piece_vector_spec(b: Board, k: int) -> u64 {
    if k == 1 {
        b.w_pawn_attack_spec()
    } else if k == 2 {
        b.rook_vector_spec(b.bitfields[2])
    } else if k == 3 {
        Board::knight_vector_spec(b.bitfields[3])
    } else if k == 4 {
        b.bisshop_vector_spec(b.bitfields[4])
    } else if k == 5 {
        b.queen_vector_spec(b.bitfields[5])
    } else if k == 6 {
        Board::king_vector_spec(b.bitfields[6])
    } else if k == 7 {
        b.b_pawn_attack_spec()
    } else if k == 8 {
        b.rook_vector_spec(b.bitfields[8])
    } else if k == 9 {
        Board::knight_vector_spec(b.bitfields[9])
    } else if k == 10 {
        b.bisshop_vector_spec(b.bitfields[10])
    } else if k == 11 {
        b.queen_vector_spec(b.bitfields[11])
    } else if k == 12 {
        Board::king_vector_spec(b.bitfields[12])
    } else {
        0
    }
}

/// Union of the per-piece reaches of one side.
pub open spec fn attack_all_spec(b: Board, c: Color) -> u64 {
    match c {
        Color::White => per_piece_vector_spec(b, 1) | per_piece_vector_spec(b, 2)
            | per_piece_vector_spec(b, 3) | per_piece_vector_spec(b, 4) | per_piece_vector_spec(
            b,
            5,
        ) | per_piece_vector_spec(b, 6),
        Color::Black => per_piece_vector_spec(b, 7) | per_piece_vector_spec(b, 8)
            | per_piece_vector_spec(b, 9) | per_piece_vector_spec(b, 10) | per_piece_vector_spec(
            b,
            11,
        ) | per_piece_vector_spec(b, 12),
    }
}

impl Board {
    /// All attack masks of this position, one per piece kind, plus the two
    /// per-color unions.
    pub fn attack_vectors(&self) -> (r: AttacVector)
        requires
            self.wf(),
        ensures
            forall|k: int| 0 <= k < 13 ==> r.bitfields[k] == per_piece_vector_spec(*self, k),
            r.all[0] == attack_all_spec(*self, Color::White),
            r.all[1] == attack_all_spec(*self, Color::Black),
    {
        let bitfields: [u64; 13] = [
            0,
            self.w_pawn_attack(),
            self.rook_vector(self.bits(Square::WRook)),
            self.knight_vector(self.bits(Square::WKnight)),
            self.bisshop_vector(self.bits(Square::WBisshop)),
            self.queen_vector(self.bits(Square::WQueen)),
            self.king_vector(self.bits(Square::WKing)),
            self.b_pawn_attack(),
            self.rook_vector(self.bits(Square::BRook)),
            self.knight_vector(self.bits(Square::BKnight)),
            self.bisshop_vector(self.bits(Square::BBisshop)),
            self.queen_vector(self.bits(Square::BQueen)),
            self.king_vector(self.bits(Square::BKing)),
        ];
        let all: [u64; 2] = [
            bitfields[1] | bitfields[2] | bitfields[3] | bitfields[4] | bitfields[5]
                | bitfields[6],
            bitfields[7] | bitfields[8] | bitfields[9] | bitfields[10] | bitfields[11]
                | bitfields[12],
        ];
        AttacVector { all, bitfields }
    }
}

/// Signed material sum of the piece kinds up to mask index `k`: piece value
/// times piece count, positive for white, negative for black.
pub open spec fn material_sum(b: Board, k: int) -> int
    decreases k,
{
    if k <= 0 {
        0
    } else {
        material_sum(b, k - 1) + sq_of(k).value_spec() * count_bits(b.bitfields[k])
    }
}

/// Material balance seen from `c`: the signed sum over all twelve piece
/// kinds, times the side's sign.
pub open spec fn material_spec(b: Board, c: Color) -> int {
    material_sum(b, 12) * c.sign_spec()
}

pub proof fn lemma_material_sum_bound(b: Board, k: int)
    requires
        0 <= k <= 12,
    ensures
        -576 * k <= material_sum(b, k) <= 576 * k,
    decreases k,
{
    if k > 0 {
        lemma_material_sum_bound(b, k - 1);
        lemma_count_below_bound(b.bitfields[k], 64);
    }
}

/// Material balance seen from `player`.
pub fn material(board: &Board, player: Color) -> (r: i32)
    ensures
        r == material_spec(*board, player),
        -6912 <= r <= 6912,
{
    let mut sum: i32 = 0;
    let mut k: usize = 1;
    while k < 13
        invariant
            1 <= k <= 13,
            sum == material_sum(*board, k - 1),
            -576 * (k - 1) <= sum <= 576 * (k - 1),
        decreases 13 - k,
    {
        let piece = Square::from_index(k);
        let count = board.piece_count(piece);
        proof {
            lemma_count_below_bound(board.bitfields[k as int], 64);
            crate::board::lemma_sq_of_index();
            assert(sq_of(k as int) == piece) by {
                if piece != Square::OffBoard {
                }
            }
        }
        sum = sum + piece.value() * (count as i32);
        k += 1;
    }
    proof {
        lemma_material_sum_bound(*board, 12);
    }
    sum * player.sign()
}

/// 1 when `player` is currently in check, else 0.
pub open spec fn check_ind_spec(b: Board, c: Color) -> int {
    if b.bitfields[c.king_spec().index_spec()] & attack_all_spec(b, c.opposite_spec()) != 0 {
        1
    } else {
        0
    }
}

/// 1 when `player`'s king stands on a square the other side reaches.
pub fn is_check(board: &Board, attck: &AttacVector, player: Color) -> (r: i32)
    requires
        board.wf(),
        attck.all[0] == attack_all_spec(*board, Color::White),
        attck.all[1] == attack_all_spec(*board, Color::Black),
    ensures
        r == check_ind_spec(*board, player),
{
    if board.bits(player.king()) & attck.all[player.opposite().index()] != 0 {
        1
    } else {
        0
    }
}

/// The squares of `c`'s pieces other than the king.
pub open spec fn non_king_spec(b: Board, c: Color) -> u64 {
    match c {
        Color::White => b.bitfields[1] | b.bitfields[2] | b.bitfields[3] | b.bitfields[4]
            | b.bitfields[5],
        Color::Black => b.bitfields[7] | b.bitfields[8] | b.bitfields[9] | b.bitfields[10]
            | b.bitfields[11],
    }
}

/// How many of `c`'s non-king pieces stand on squares `c` itself reaches.
pub open spec fn protection1_spec(b: Board, c: Color) -> int {
    count_bits(non_king_spec(b, c) & attack_all_spec(b, c))
}

pub fn protection1(board: &Board, attck: &AttacVector, player: Color) -> (r: u32)
    requires
        board.wf(),
        attck.all[0] == attack_all_spec(*board, Color::White),
        attck.all[1] == attack_all_spec(*board, Color::Black),
    ensures
        r == protection1_spec(*board, player),
        r <= 64,
{
    let covered = match player {
        Color::White => self_or5(
            board.bits(Square::WPawn),
            board.bits(Square::WRook),
            board.bits(Square::WKnight),
            board.bits(Square::WBisshop),
            board.bits(Square::WQueen),
        ),
        Color::Black => self_or5(
            board.bits(Square::BPawn),
            board.bits(Square::BRook),
            board.bits(Square::BKnight),
            board.bits(Square::BBisshop),
            board.bits(Square::BQueen),
        ),
    };
    let protected = covered & attck.all[player.index()];
    proof {
        lemma_count_below_bound(protected, 64);
    }
    crate::bits::popcount(protected)
}

fn self_or5(a: u64, b: u64, c: u64, d: u64, e: u64) -> (r: u64)
    ensures
        r == (a | b | c | d | e),
{
    a | b | c | d | e
}

/// Protection balance: own covered minor pieces minus the opponent's.
pub fn protection(board: &Board, attck: &AttacVector, player: Color) -> (r: i32)
    requires
        board.wf(),
        attck.all[0] == attack_all_spec(*board, Color::White),
        attck.all[1] == attack_all_spec(*board, Color::Black),
    ensures
        r == protection1_spec(*board, player) - protection1_spec(
            *board,
            player.opposite_spec(),
        ),
        -64 <= r <= 64,
{
    let own = protection1(board, attck, player);
    let other = protection1(board, attck, player.opposite());
    (own as i32) - (other as i32)
}

/// How many opponent pieces stand on squares `c` reaches.
pub open spec fn threat1_spec(b: Board, c: Color) -> int {
    count_bits(b.pieces_spec(c.opposite_spec()) & attack_all_spec(b, c))
}

pub fn threat1(board: &Board, attck: &AttacVector, player: Color) -> (r: u32)
    requires
        board.wf(),
        attck.all[0] == attack_all_spec(*board, Color::White),
        attck.all[1] == attack_all_spec(*board, Color::Black),
    ensures
        r == threat1_spec(*board, player),
        r <= 64,
{
    let m = board.all_pieces(player.opposite()) & attck.all[player.index()];
    proof {
        lemma_count_below_bound(m, 64);
    }
    crate::bits::popcount(m)
}

/// Threat balance: opponent pieces covered by own reach, minus the mirror.
pub fn threat(board: &Board, attck: &AttacVector, player: Color) -> (r: i32)
    requires
        board.wf(),
        attck.all[0] == attack_all_spec(*board, Color::White),
        attck.all[1] == attack_all_spec(*board, Color::Black),
    ensures
        r == threat1_spec(*board, player) - threat1_spec(*board, player.opposite_spec()),
        -64 <= r <= 64,
{
    let own = threat1(board, attck, player);
    let other = threat1(board, attck, player.opposite());
    (own as i32) - (other as i32)
}

/// Signed sum of the reach of every piece kind, up to mask index `k`.
pub open spec fn mobility_sum(b: Board, k: int) -> int
    decreases k,
{
    if k <= 0 {
        0
    } else {
        mobility_sum(b, k - 1) + sq_of(k).sign_spec() * count_bits(per_piece_vector_spec(b, k))
    }
}

/// Mobility balance seen from `c`.
pub open spec fn mobility_spec(b: Board, c: Color) -> int {
    mobility_sum(b, 12) * c.sign_spec()
}

pub proof fn lemma_mobility_sum_bound(b: Board, k: int)
    requires
        0 <= k <= 12,
    ensures
        -64 * k <= mobility_sum(b, k) <= 64 * k,
    decreases k,
{
    if k > 0 {
        lemma_mobility_sum_bound(b, k - 1);
        lemma_count_below_bound(per_piece_vector_spec(b, k), 64);
    }
}

/// Mobility balance: reachable squares per piece kind, counted with the
/// piece's sign, seen from `player`.
pub fn mobility(board: &Board, attck: &AttacVector, player: Color) -> (r: i32)
    requires
        forall|k: int| 0 <= k < 13 ==> attck.bitfields[k] == per_piece_vector_spec(*board, k),
    ensures
        r == mobility_spec(*board, player),
        -768 <= r <= 768,
{
    let mut sum: i32 = 0;
    let mut k: usize = 1;
    while k < 13
        invariant
            1 <= k <= 13,
            forall|k2: int|
                0 <= k2 < 13 ==> attck.bitfields[k2] == per_piece_vector_spec(*board, k2),
            sum == mobility_sum(*board, k - 1),
            -64 * (k - 1) <= sum <= 64 * (k - 1),
        decreases 13 - k,
    {
        let piece = Square::from_index(k);
        let count = crate::bits::popcount(attck.bitfields[k]);
        proof {
            lemma_count_below_bound(attck.bitfields[k as int], 64);
            crate::board::lemma_sq_of_index();
            assert(sq_of(k as int) == piece);
        }
        sum = sum + piece.sign() * (count as i32);
        k += 1;
    }
    proof {
        lemma_mobility_sum_bound(*board, 12);
    }
    sum * player.sign()
}

/// The composite heuristic: a dominant penalty for being in check, material
/// first, then protection, threat and mobility as tie breakers.
pub open spec fn heuristic1_spec(b: Board, c: Color) -> int {
    -1_000_000 * check_ind_spec(b, c) + 1000 * material_spec(b, c) + 3 * (protection1_spec(b, c)
        - protection1_spec(b, c.opposite_spec())) + 2 * (threat1_spec(b, c) - threat1_spec(
        b,
        c.opposite_spec(),
    )) + mobility_spec(b, c)
}

pub fn heuristic1(board: &Board, player: Color) -> (r: i32)
    requires
        board.wf(),
    ensures
        r == heuristic1_spec(*board, player),
        -8_000_000 <= r <= 8_000_000,
{
    let attck = board.attack_vectors();
    -1_000_000 * is_check(board, &attck, player) + 1000 * material(board, player) + 3
        * protection(board, &attck, player) + 2 * threat(board, &attck, player) + 1 * mobility(
        board,
        &attck,
        player,
    )
}

/// Check penalty and material only.
pub open spec fn heuristic2_spec(b: Board, c: Color) -> int {
    -1_000_000 * check_ind_spec(b, c) + 1000 * material_spec(b, c)
}

pub fn heuristic2(board: &Board, player: Color) -> (r: i32)
    requires
        board.wf(),
    ensures
        r == heuristic2_spec(*board, player),
        -8_000_000 <= r <= 8_000_000,
{
    let attck = board.attack_vectors();
    -1_000_000 * is_check(board, &attck, player) + 1000 * material(board, player)
}

/// Always zero; for testing search plumbing.
pub fn zero(_board: &Board, _player: Color) -> (r: i32)
    ensures
        r == 0,
{
    0
}

/// The least square index holding `c`'s king, from `i` upward; 64 when
/// none does.
pub open spec fn least_king(b: Board, c: Color, i: int) -> int
    decreases 64 - i,
{
    if i < 0 || i >= 64 {
        64
    } else if b.at_spec(i as u64) == c.king_spec() {
        i
    } else {
        least_king(b, c, i + 1)
    }
}

proof fn lemma_least_king(b: Board, c: Color, i: int, k: int)
    requires
        0 <= i <= k < 64,
        b.at_spec(k as u64) == c.king_spec(),
        forall|j: u64| j < k ==> b.at_spec(j) != c.king_spec(),
    ensures
        least_king(b, c, i) == k,
    decreases 64 - i,
{
    if i < k {
        assert(b.at_spec(i as u64) != c.king_spec());
        lemma_least_king(b, c, i + 1, k);
    }
}

/// Sum of the taxicab distances from `c`'s pieces on squares below `n` to
/// the square with index `ki`.
pub open spec fn kd_sum(b: Board, c: Color, ki: int, n: int) -> int
    decreases n,
{
    if n <= 0 {
        0
    } else {
        kd_sum(b, c, ki, n - 1) + (if b.at_spec((n - 1) as u64).color_spec() == Some(c) {
            crate::pos::abs_diff((n - 1) / 8, ki / 8) + crate::pos::abs_diff((n - 1) % 8, ki % 8)
        } else {
            0
        })
    }
}

proof fn lemma_kd_sum_bound(b: Board, c: Color, ki: int, n: int)
    requires
        0 <= n <= 64,
        0 <= ki < 64,
    ensures
        0 <= kd_sum(b, c, ki, n) <= 14 * n,
    decreases n,
{
    if n > 0 {
        lemma_kd_sum_bound(b, c, ki, n - 1);
        assert(0 <= (n - 1) / 8 < 8 && 0 <= (n - 1) % 8 < 8) by {
            vstd::arithmetic::div_mod::lemma_fundamental_div_mod(n - 1, 8);
            if (n - 1) / 8 >= 8 || (n - 1) / 8 < 0 {
                assert(n - 1 == 8 * ((n - 1) / 8) + (n - 1) % 8);
            }
        }
        assert(0 <= ki / 8 < 8 && 0 <= ki % 8 < 8) by {
            vstd::arithmetic::div_mod::lemma_fundamental_div_mod(ki, 8);
            if ki / 8 >= 8 || ki / 8 < 0 {
                assert(ki == 8 * (ki / 8) + ki % 8);
            }
        }
    }
}

/// The negated summed distance of all of `player`'s pieces to the
/// opponent's (first) king: rewards converging on the enemy king.
pub fn king_distance(board: &Board, player: Color) -> (r: i32)
    requires
        board.wf(),
        exists|i: u64|
            i < 64 && #[trigger] board.at_spec(i) == player.opposite_spec().king_spec(),
    ensures
        r == -kd_sum(*board, player, least_king(*board, player.opposite_spec(), 0), 64),
        -896 <= r <= 0,
{
    let king = board.king_position(player.opposite());
    let ghost ki = least_king(*board, player.opposite_spec(), 0);
    proof {
        lemma_least_king(*board, player.opposite_spec(), 0, king.index_spec());
        crate::pos::lemma_pos_coords(king);
    }
    let mut sum: i32 = 0;
    let mut i: usize = 0;
    while i < 64
        invariant
            board.wf(),
            i <= 64,
            king.valid(),
            ki == king.index_spec(),
            king.index_spec() / 8 == king.row_spec(),
            king.index_spec() % 8 == king.col_spec(),
            sum == kd_sum(*board, player, ki, i as int),
            0 <= sum <= 14 * i,
        decreases 64 - i,
    {
        let p = crate::pos::Pos::from_index(i);
        let sq = board.at(p);
        proof {
            lemma_kd_sum_bound(*board, player, ki, i as int + 1);
        }
        if sq.is_color(player) {
            let d = p.l1_distance_to(king);
            sum = sum + (d as i32);
        }
        i += 1;
    }
    0 - sum
}

} // verus!
