use vstd::prelude::*;
use crate::bits::{bit, dshift_spec, dstep_back, dstep_ok, lemma_bit_ops, lemma_dstep_coords,
    lemma_single_bit, slide_acc, stepped, Dir};
use crate::board::Board;
use crate::color::Color;
use crate::moves::Move;
use crate::square::Square;

verus! {

/// The board as a sequence of 64 squares, row-major.
impl Board {
    pub open spec fn view_seq(self) -> Seq<Square> {
        Seq::new(64, |i: int| self.at_spec(i as u64))
    }
}

/// Index change of one step in direction `d`.
pub open spec fn ray_step(d: Dir) -> int {
    8 * d.dr() + d.dc()
}

/// The square `j` ray steps from `f` in direction `d`.
pub open spec fn ray_sq(f: int, d: Dir, j: int) -> int {
    f + j * ray_step(d)
}

/// Square `t` lies `n` ray steps from `f` in direction `d`, with every
/// square strictly between them empty.
pub open spec fn ray_n(at: Seq<Square>, f: int, t: int, d: Dir, n: int) -> bool {
    1 <= n < 8 && t / 8 == f / 8 + n * d.dr() && t % 8 == f % 8 + n * d.dc() && (forall|j: int|
        1 <= j < n ==> at[#[trigger] ray_sq(f, d, j)] == Square::Empty)
}

/// Square `t` is reachable from `f` along direction `d` through empty
/// squares.
pub open spec fn chess_ray(at: Seq<Square>, f: int, t: int, d: Dir) -> bool {
    exists|n: int| ray_n(at, f, t, d, n)
}

/// Does the piece on square `i` belong to `c`?
pub open spec fn owns(at: Seq<Square>, c: Color, i: int) -> bool {
    at[i].color_spec() == Some(c)
}

/// The movement rules of chess (without castling, en passant or promotion),
/// stated square by square: may the piece standing on `f` move to `t`?
pub open spec fn chess_dest_spec(at: Seq<Square>, f: int, t: int) -> bool {
    let fr = f / 8;
    let fc = f % 8;
    let tr = t / 8;
    let tc = t % 8;
    match at[f] {
        Square::WPawn => (tr == fr + 1 && tc == fc && at[t] == Square::Empty) || (fr == 1 && tr
            == 3 && tc == fc && at[f + 8] == Square::Empty && at[t] == Square::Empty) || (tr == fr
            + 1 && (tc == fc + 1 || tc + 1 == fc) && at[t].is_black_spec()),
        Square::BPawn => (tr + 1 == fr && tc == fc && at[t] == Square::Empty) || (fr == 6 && tr
            == 4 && tc == fc && at[f - 8] == Square::Empty && at[t] == Square::Empty) || (tr + 1
            == fr && (tc == fc + 1 || tc + 1 == fc) && at[t].is_white_spec()),
        Square::WKnight | Square::BKnight => knight_jump(fr, fc, tr, tc) && !owns_same(at, f, t),
        Square::WKing | Square::BKing => king_step(fr, fc, tr, tc) && !owns_same(at, f, t),
        Square::WRook | Square::BRook => (chess_ray(at, f, t, Dir::N) || chess_ray(
            at,
            f,
            t,
            Dir::E,
        ) || chess_ray(at, f, t, Dir::S) || chess_ray(at, f, t, Dir::W)) && !owns_same(at, f, t),
        Square::WBisshop | Square::BBisshop => (chess_ray(at, f, t, Dir::NE) || chess_ray(
            at,
            f,
            t,
            Dir::SE,
        ) || chess_ray(at, f, t, Dir::SW) || chess_ray(at, f, t, Dir::NW)) && !owns_same(
            at,
            f,
            t,
        ),
        Square::WQueen | Square::BQueen => (chess_ray(at, f, t, Dir::N) || chess_ray(
            at,
            f,
            t,
            Dir::E,
        ) || chess_ray(at, f, t, Dir::S) || chess_ray(at, f, t, Dir::W) || chess_ray(
            at,
            f,
            t,
            Dir::NE,
        ) || chess_ray(at, f, t, Dir::SE) || chess_ray(at, f, t, Dir::SW) || chess_ray(
            at,
            f,
            t,
            Dir::NW,
        )) && !owns_same(at, f, t),
        _ => false,
    }
}

/// Do the pieces on `f` and `t` belong to the same side?
pub open spec fn owns_same(at: Seq<Square>, f: int, t: int) -> bool {
    at[t].color_spec() == at[f].color_spec()
}

pub open spec fn king_step(fr: int, fc: int, tr: int, tc: int) -> bool {
    tr <= fr + 1 && fr <= tr + 1 && tc <= fc + 1 && fc <= tc + 1
}

pub open spec fn knight_jump(fr: int, fc: int, tr: int, tc: int) -> bool {
    (abs_d(fr, tr) == 1 && abs_d(fc, tc) == 2) || (abs_d(fr, tr) == 2 && abs_d(fc, tc) == 1)
}

pub open spec fn abs_d(a: int, b: int) -> int {
    if a >= b {
        a - b
    } else {
        b - a
    }
}

/// A full pseudo-legal move of `c`: endpoints on the board, the moving
/// piece as found on the origin, owned by `c`, and moving by the rules.
pub open spec fn chess_move_spec(at: Seq<Square>, c: Color, m: Move) -> bool {
    m.from.valid() && m.to.valid() && m.piece == at[m.from.index_spec()] && owns(
        at,
        c,
        m.from.index_spec(),
    ) && chess_dest_spec(at, m.from.index_spec(), m.to.index_spec())
}

// ______________________________________________ ray characterization

/// Source square: `f` holds a bit of `bits`, `t` lies `n` steps along `d`
/// and the strictly-between squares are in `empty`.
pub open spec fn src_n(bits: u64, empty: u64, d: Dir, n: int, f: int, t: u64) -> bool {
    0 <= f < 64 && bit(bits, f as u64) && (t as int) / 8 == f / 8 + n * d.dr() && (t as int) % 8
        == f % 8 + n * d.dc() && (forall|j: int|
        1 <= j < n ==> bit(empty, (#[trigger] ray_sq(f, d, j)) as u64))
}

/// On-board coordinates one step apart in direction `d` are exactly one
/// `dstep` apart as indices.
proof fn lemma_coords_to_idx(f: int, t: int, d: Dir)
    requires
        0 <= f < 64,
        0 <= t < 64,
        t / 8 == f / 8 + d.dr(),
        t % 8 == f % 8 + d.dc(),
    ensures
        dstep_ok(d, t as u64),
        dstep_back(d, t as u64) == f,
{
    vstd::arithmetic::div_mod::lemma_fundamental_div_mod(f, 8);
    vstd::arithmetic::div_mod::lemma_fundamental_div_mod(t, 8);
}

/// An index `n` steps along a ray equals the coordinate relation.
pub proof fn lemma_ray_idx(f: int, t: int, d: Dir, n: int)
    requires
        0 <= f < 64,
        0 <= t < 64,
        t / 8 == f / 8 + n * d.dr(),
        t % 8 == f % 8 + n * d.dc(),
    ensures
        t == f + n * ray_step(d),
{
    vstd::arithmetic::div_mod::lemma_fundamental_div_mod(f, 8);
    vstd::arithmetic::div_mod::lemma_fundamental_div_mod(t, 8);
    assert(t == 8 * (f / 8 + n * d.dr()) + (f % 8 + n * d.dc()));
    assert(t == f + n * (8 * d.dr() + d.dc())) by (nonlinear_arith)
        requires
            t == 8 * (f / 8 + n * d.dr()) + (f % 8 + n * d.dc()),
            f == 8 * (f / 8) + f % 8,
    ;
}

/// What `n` shift steps through empty squares reach, square by square.
proof fn lemma_stepped_char(bits: u64, empty: u64, d: Dir, n: nat)
    requires
        1 <= n < 8,
    ensures
        forall|t: u64|
            t < 64 ==> (#[trigger] bit(stepped(bits, empty, d, n), t) <==> exists|f: int|
                src_n(bits, empty, d, n as int, f, t)),
    decreases n,
{
    crate::bits::lemma_dshift_bits(d, bits);
    if n == 1 {
        assert forall|t: u64| t < 64 implies (#[trigger] bit(stepped(bits, empty, d, n), t)
            <==> exists|f: int| #[trigger] src_n(bits, empty, d, n as int, f, t)) by {
            if bit(stepped(bits, empty, d, n), t) {
                lemma_dstep_coords(d, t);
                let f = dstep_back(d, t) as int;
                assert(src_n(bits, empty, d, 1, f, t));
            }
            if exists|f: int| #[trigger] src_n(bits, empty, d, n as int, f, t) {
                let f = choose|f: int| #[trigger] src_n(bits, empty, d, n as int, f, t);
                lemma_coords_to_idx(f, t as int, d);
            }
        }
    } else {
        lemma_stepped_char(bits, empty, d, (n - 1) as nat);
        let prev = stepped(bits, empty, d, (n - 1) as nat);
        crate::bits::lemma_dshift_bits(d, prev & empty);
        lemma_bit_ops(prev, empty);
        assert(stepped(bits, empty, d, n) == dshift_spec(d, prev & empty));
        assert forall|t: u64| t < 64 implies (#[trigger] bit(stepped(bits, empty, d, n), t)
            <==> exists|f: int| #[trigger] src_n(bits, empty, d, n as int, f, t)) by {
            if bit(stepped(bits, empty, d, n), t) {
                lemma_dstep_coords(d, t);
                let back = dstep_back(d, t);
                assert(bit(prev, back) && bit(empty, back));
                let f = choose|f: int| #[trigger] src_n(bits, empty, d, (n - 1) as int, f, back);
                lemma_ray_idx(f, back as int, d, (n - 1) as int);
                assert(back as int == f + (n - 1) * ray_step(d));
                assert forall|j: int| 1 <= j < n implies bit(
                    empty,
                    (#[trigger] ray_sq(f, d, j)) as u64,
                ) by {
                    if j == n - 1 {
                        assert(ray_sq(f, d, j) == back as int) by (nonlinear_arith)
                            requires
                                j == n - 1,
                                back as int == f + (n - 1) * ray_step(d),
                                ray_sq(f, d, j) == f + j * ray_step(d),
                        ;
                    }
                }
                assert((t as int) / 8 == f / 8 + n * d.dr() && (t as int) % 8 == f % 8 + n
                    * d.dc()) by (nonlinear_arith)
                    requires
                        (t as int) / 8 == (back as int) / 8 + d.dr(),
                        (t as int) % 8 == (back as int) % 8 + d.dc(),
                        (back as int) / 8 == f / 8 + (n - 1) * d.dr(),
                        (back as int) % 8 == f % 8 + (n - 1) * d.dc(),
                ;
                assert(src_n(bits, empty, d, n as int, f, t));
            }
            if exists|f: int| #[trigger] src_n(bits, empty, d, n as int, f, t) {
                let f = choose|f: int| #[trigger] src_n(bits, empty, d, n as int, f, t);
                // the square one step back from t lies n-1 steps from f
                let br = (t as int) / 8 - d.dr();
                let bc = (t as int) % 8 - d.dc();
                assert(0 <= f / 8 < 8 && 0 <= f % 8 < 8) by {
                    vstd::arithmetic::div_mod::lemma_fundamental_div_mod(f, 8);
                }
                assert(0 <= (t as int) / 8 < 8 && 0 <= (t as int) % 8 < 8) by {
                    vstd::arithmetic::div_mod::lemma_fundamental_div_mod(t as int, 8);
                }
                assert(-1 <= d.dr() <= 1 && -1 <= d.dc() <= 1);
                assert(0 <= br < 8 && 0 <= bc < 8) by (nonlinear_arith)
                    requires
                        (t as int) / 8 == f / 8 + n * d.dr(),
                        (t as int) % 8 == f % 8 + n * d.dc(),
                        br == (t as int) / 8 - d.dr(),
                        bc == (t as int) % 8 - d.dc(),
                        0 <= f / 8 < 8,
                        0 <= f % 8 < 8,
                        0 <= (t as int) / 8 < 8,
                        0 <= (t as int) % 8 < 8,
                        2 <= n < 8,
                        -1 <= d.dr() <= 1,
                        -1 <= d.dc() <= 1,
                ;
                let back = (8 * br + bc) as u64;
                assert(back < 64);
                assert((back as int) / 8 == br && (back as int) % 8 == bc) by {
                    vstd::arithmetic::div_mod::lemma_fundamental_div_mod_converse(
                        8 * br + bc,
                        8,
                        br,
                        bc,
                    );
                }
                assert((back as int) / 8 == f / 8 + (n - 1) * d.dr() && (back as int) % 8 == f % 8
                    + (n - 1) * d.dc()) by (nonlinear_arith)
                    requires
                        (back as int) / 8 == (t as int) / 8 - d.dr(),
                        (back as int) % 8 == (t as int) % 8 - d.dc(),
                        (t as int) / 8 == f / 8 + n * d.dr(),
                        (t as int) % 8 == f % 8 + n * d.dc(),
                ;
                assert(src_n(bits, empty, d, (n - 1) as int, f, back));
                assert(bit(prev, back));
                lemma_ray_idx(f, back as int, d, (n - 1) as int);
                assert(bit(empty, back)) by {
                    assert(ray_sq(f, d, n - 1) == back as int);
                }
                lemma_coords_to_idx(back as int, t as int, d);
                assert(bit(stepped(bits, empty, d, n), t));
            }
        }
    }
}

/// What a full seven-step ray cast reaches, square by square.
pub proof fn lemma_slide_char(bits: u64, empty: u64, d: Dir)
    ensures
        forall|t: u64|
            t < 64 ==> (#[trigger] bit(slide_acc(bits, empty, d, 7), t) <==> exists|f: int, n: int|
                1 <= n < 8 && src_n(bits, empty, d, n, f, t)),
{
    lemma_stepped_char(bits, empty, d, 1);
    lemma_stepped_char(bits, empty, d, 2);
    lemma_stepped_char(bits, empty, d, 3);
    lemma_stepped_char(bits, empty, d, 4);
    lemma_stepped_char(bits, empty, d, 5);
    lemma_stepped_char(bits, empty, d, 6);
    lemma_stepped_char(bits, empty, d, 7);
    let s1 = stepped(bits, empty, d, 1);
    let s2 = stepped(bits, empty, d, 2);
    let s3 = stepped(bits, empty, d, 3);
    let s4 = stepped(bits, empty, d, 4);
    let s5 = stepped(bits, empty, d, 5);
    let s6 = stepped(bits, empty, d, 6);
    let s7 = stepped(bits, empty, d, 7);
    lemma_bit_ops(s1, s2);
    lemma_bit_ops(s1 | s2, s3);
    lemma_bit_ops(s1 | s2 | s3, s4);
    lemma_bit_ops(s1 | s2 | s3 | s4, s5);
    lemma_bit_ops(s1 | s2 | s3 | s4 | s5, s6);
    lemma_bit_ops(s1 | s2 | s3 | s4 | s5 | s6, s7);
    assert(slide_acc(bits, empty, d, 1) == s1);
    assert(slide_acc(bits, empty, d, 2) == slide_acc(bits, empty, d, 1) | s2);
    assert(slide_acc(bits, empty, d, 3) == slide_acc(bits, empty, d, 2) | s3);
    assert(slide_acc(bits, empty, d, 4) == slide_acc(bits, empty, d, 3) | s4);
    assert(slide_acc(bits, empty, d, 5) == slide_acc(bits, empty, d, 4) | s5);
    assert(slide_acc(bits, empty, d, 6) == slide_acc(bits, empty, d, 5) | s6);
    assert(slide_acc(bits, empty, d, 7) == slide_acc(bits, empty, d, 6) | s7);
    assert(slide_acc(bits, empty, d, 7) == (s1 | s2 | s3 | s4 | s5 | s6 | s7));
    assert forall|t: u64| t < 64 implies (#[trigger] bit(slide_acc(bits, empty, d, 7), t)
        <==> exists|f: int, n: int| 1 <= n < 8 && #[trigger] src_n(bits, empty, d, n, f, t)) by {
        if bit(slide_acc(bits, empty, d, 7), t) {
            if bit(s1, t) {
                let f = choose|f: int| #[trigger] src_n(bits, empty, d, 1, f, t);
                assert(1 <= 1 < 8 && src_n(bits, empty, d, 1, f, t));
            } else if bit(s2, t) {
                let f = choose|f: int| #[trigger] src_n(bits, empty, d, 2, f, t);
                assert(1 <= 2 < 8 && src_n(bits, empty, d, 2, f, t));
            } else if bit(s3, t) {
                let f = choose|f: int| #[trigger] src_n(bits, empty, d, 3, f, t);
                assert(1 <= 3 < 8 && src_n(bits, empty, d, 3, f, t));
            } else if bit(s4, t) {
                let f = choose|f: int| #[trigger] src_n(bits, empty, d, 4, f, t);
                assert(1 <= 4 < 8 && src_n(bits, empty, d, 4, f, t));
            } else if bit(s5, t) {
                let f = choose|f: int| #[trigger] src_n(bits, empty, d, 5, f, t);
                assert(1 <= 5 < 8 && src_n(bits, empty, d, 5, f, t));
            } else if bit(s6, t) {
                let f = choose|f: int| #[trigger] src_n(bits, empty, d, 6, f, t);
                assert(1 <= 6 < 8 && src_n(bits, empty, d, 6, f, t));
            } else {
                let f = choose|f: int| #[trigger] src_n(bits, empty, d, 7, f, t);
                assert(1 <= 7 < 8 && src_n(bits, empty, d, 7, f, t));
            }
        }
        if exists|f: int, n: int| 1 <= n < 8 && #[trigger] src_n(bits, empty, d, n, f, t) {
            let (f, n) = choose|f: int, n: int| 1 <= n < 8 && #[trigger] src_n(bits, empty, d, n, f, t);
            if n == 1 {
                assert(bit(s1, t));
            } else if n == 2 {
                assert(bit(s2, t));
            } else if n == 3 {
                assert(bit(s3, t));
            } else if n == 4 {
                assert(bit(s4, t));
            } else if n == 5 {
                assert(bit(s5, t));
            } else if n == 6 {
                assert(bit(s6, t));
            } else {
                assert(bit(s7, t));
            }
        }
    }
}

/// Intermediate ray squares stay on the board, with the expected row and
/// column.
proof fn lemma_ray_sq_range(f: int, t: int, d: Dir, n: int, j: int)
    requires
        0 <= f < 64,
        0 <= t < 64,
        1 <= n < 8,
        t / 8 == f / 8 + n * d.dr(),
        t % 8 == f % 8 + n * d.dc(),
        1 <= j < n,
    ensures
        0 <= ray_sq(f, d, j) < 64,
        ray_sq(f, d, j) / 8 == f / 8 + j * d.dr(),
        ray_sq(f, d, j) % 8 == f % 8 + j * d.dc(),
{
    vstd::arithmetic::div_mod::lemma_fundamental_div_mod(f, 8);
    vstd::arithmetic::div_mod::lemma_fundamental_div_mod(t, 8);
    let rr = f / 8 + j * d.dr();
    let cc = f % 8 + j * d.dc();
    assert(0 <= rr < 8 && 0 <= cc < 8 && ray_sq(f, d, j) == 8 * rr + cc) by (nonlinear_arith)
        requires
            0 <= f / 8 < 8,
            0 <= f % 8 < 8,
            0 <= t / 8 < 8,
            0 <= t % 8 < 8,
            t / 8 == f / 8 + n * d.dr(),
            t % 8 == f % 8 + n * d.dc(),
            1 <= j < n,
            -1 <= d.dr() <= 1,
            -1 <= d.dc() <= 1,
            rr == f / 8 + j * d.dr(),
            cc == f % 8 + j * d.dc(),
            ray_sq(f, d, j) == f + j * (8 * d.dr() + d.dc()),
            f == 8 * (f / 8) + f % 8,
    ;
    vstd::arithmetic::div_mod::lemma_fundamental_div_mod_converse(ray_sq(f, d, j), 8, rr, cc);
}

/// A single-piece ray cast reaches exactly the squares `chess_ray` names.
proof fn lemma_ray_bridge(b: Board, f: int, t: int, d: Dir)
    requires
        b.wf(),
        0 <= f < 64,
        0 <= t < 64,
    ensures
        bit(b.slide_spec(1u64 << (f as u64), d), t as u64) <==> chess_ray(b.view_seq(), f, t, d),
{
    let at = b.view_seq();
    let single = 1u64 << (f as u64);
    let empty = b.empty_spec();
    lemma_slide_char(single, empty, d);
    lemma_single_bit(f as u64);
    b.lemma_side_masks();
    if bit(b.slide_spec(single, d), t as u64) {
        let (f2, n) = choose|f2: int, n: int|
            1 <= n < 8 && #[trigger] src_n(single, empty, d, n, f2, t as u64);
        assert(bit(single, f2 as u64));
        assert(f2 == f);
        assert forall|j: int| 1 <= j < n implies at[#[trigger] ray_sq(f, d, j)] == Square::Empty
            by {
            lemma_ray_sq_range(f, t, d, n, j);
            assert(bit(empty, ray_sq(f, d, j) as u64));
        }
        assert(ray_n(at, f, t, d, n));
    }
    if chess_ray(at, f, t, d) {
        let n = choose|n: int| ray_n(at, f, t, d, n);
        assert forall|j: int| 1 <= j < n implies bit(
            empty,
            (#[trigger] ray_sq(f, d, j)) as u64,
        ) by {
            lemma_ray_sq_range(f, t, d, n, j);
            assert(at[ray_sq(f, d, j)] == Square::Empty);
        }
        assert(src_n(single, empty, d, n, f, t as u64));
    }
}

/// A lone king on `f` reaches exactly the 3x3 neighbourhood of `f`.
proof fn lemma_king_single(f: u64, t: u64)
    by (bit_vector)
    requires
        f < 64,
        t < 64,
    ensures
        bit(Board::king_vector_spec(1u64 << f), t) <==> (t / 8 <= f / 8 + 1 && f / 8 <= t / 8 + 1
            && t % 8 <= f % 8 + 1 && f % 8 <= t % 8 + 1),
{
}

/// A lone knight on `f` reaches exactly the eight knight-jump squares.
proof fn lemma_knight_single(f: u64, t: u64)
    by (bit_vector)
    requires
        f < 64,
        t < 64,
    ensures
        bit(Board::knight_vector_spec(1u64 << f), t) <==> (((t / 8 == f / 8 + 1 || t / 8 + 1 == f
            / 8) && (t % 8 == f % 8 + 2 || t % 8 + 2 == f % 8)) || ((t / 8 == f / 8 + 2 || t / 8
            + 2 == f / 8) && (t % 8 == f % 8 + 1 || t % 8 + 1 == f % 8))),
{
}

/// Index deltas of the pawn moves, as row/column relations.
proof fn lemma_delta_coords(f: u64, t: u64)
    by (bit_vector)
    requires
        f < 64,
        t < 64,
    ensures
        (t == f + 8) <==> (t / 8 == f / 8 + 1 && t % 8 == f % 8),
        (t + 8 == f) <==> (t / 8 + 1 == f / 8 && t % 8 == f % 8),
        (t == f + 16) <==> (t / 8 == f / 8 + 2 && t % 8 == f % 8),
        (t + 16 == f) <==> (t / 8 + 2 == f / 8 && t % 8 == f % 8),
        (t == f + 9 && t % 8 >= 1) <==> (t / 8 == f / 8 + 1 && t % 8 == f % 8 + 1),
        (t == f + 7 && t % 8 <= 6) <==> (t / 8 == f / 8 + 1 && t % 8 + 1 == f % 8),
        (t + 7 == f && t % 8 >= 1) <==> (t / 8 + 1 == f / 8 && t % 8 == f % 8 + 1),
        (t + 9 == f && t % 8 <= 6) <==> (t / 8 + 1 == f / 8 && t % 8 + 1 == f % 8),
{
}

/// The bitboard generator emits exactly the moves of the chess rules: for a
/// well-formed board, a move is generated for `c` precisely when the
/// movement rules allow it.
pub proof fn lemma_gen_move_chess(b: Board, c: Color, m: Move)
    requires
        b.wf(),
    ensures
        b.gen_move_spec(c, m) <==> chess_move_spec(b.view_seq(), c, m),
{
    let at = b.view_seq();
    if m.from.valid() && m.to.valid() {
        let f = m.from.index_spec();
        let t = m.to.index_spec();
        let fu = f as u64;
        let tu = t as u64;
        b.lemma_pawn_masks();
        b.lemma_side_masks();
        b.lemma_at(fu);
        b.lemma_at(tu);
        crate::board::lemma_sq_of_index();
        lemma_delta_coords(fu, tu);
        lemma_king_single(fu, tu);
        lemma_knight_single(fu, tu);
        lemma_single_bit(fu);
        let single = 1u64 << fu;
        let white = b.white_spec();
        let black = b.black_spec();
        lemma_bit_ops(white, 0);
        lemma_bit_ops(black, 0);
        lemma_bit_ops(Board::king_vector_spec(single), !white);
        lemma_bit_ops(Board::king_vector_spec(single), !black);
        lemma_bit_ops(Board::knight_vector_spec(single), !white);
        lemma_bit_ops(Board::knight_vector_spec(single), !black);
        lemma_ray_bridge(b, f, t, Dir::N);
        lemma_ray_bridge(b, f, t, Dir::E);
        lemma_ray_bridge(b, f, t, Dir::S);
        lemma_ray_bridge(b, f, t, Dir::W);
        lemma_ray_bridge(b, f, t, Dir::NE);
        lemma_ray_bridge(b, f, t, Dir::SE);
        lemma_ray_bridge(b, f, t, Dir::SW);
        lemma_ray_bridge(b, f, t, Dir::NW);
        let rook_v = b.rook_vector_spec(single);
        let bis_v = b.bisshop_vector_spec(single);
        lemma_bit_ops(b.slide_spec(single, Dir::N), b.slide_spec(single, Dir::E));
        lemma_bit_ops(
            b.slide_spec(single, Dir::N) | b.slide_spec(single, Dir::E),
            b.slide_spec(single, Dir::S),
        );
        lemma_bit_ops(
            b.slide_spec(single, Dir::N) | b.slide_spec(single, Dir::E) | b.slide_spec(
                single,
                Dir::S,
            ),
            b.slide_spec(single, Dir::W),
        );
        lemma_bit_ops(b.slide_spec(single, Dir::NE), b.slide_spec(single, Dir::SE));
        lemma_bit_ops(
            b.slide_spec(single, Dir::NE) | b.slide_spec(single, Dir::SE),
            b.slide_spec(single, Dir::SW),
        );
        lemma_bit_ops(
            b.slide_spec(single, Dir::NE) | b.slide_spec(single, Dir::SE) | b.slide_spec(
                single,
                Dir::SW,
            ),
            b.slide_spec(single, Dir::NW),
        );
        lemma_bit_ops(rook_v, !white);
        lemma_bit_ops(rook_v, !black);
        lemma_bit_ops(bis_v, !white);
        lemma_bit_ops(bis_v, !black);
        lemma_bit_ops(bis_v, rook_v);
        lemma_bit_ops(bis_v | rook_v, !white);
        lemma_bit_ops(bis_v | rook_v, !black);
        assert(b.holds(1, fu) == bit(b.bitfields[1], fu));
        assert(b.holds(7, fu) == bit(b.bitfields[7], fu));
        assert(b.holds(2, fu) == bit(b.bitfields[2], fu));
        assert(b.holds(8, fu) == bit(b.bitfields[8], fu));
        assert(b.holds(3, fu) == bit(b.bitfields[3], fu));
        assert(b.holds(9, fu) == bit(b.bitfields[9], fu));
        assert(b.holds(4, fu) == bit(b.bitfields[4], fu));
        assert(b.holds(10, fu) == bit(b.bitfields[10], fu));
        assert(b.holds(5, fu) == bit(b.bitfields[5], fu));
        assert(b.holds(11, fu) == bit(b.bitfields[11], fu));
        assert(b.holds(6, fu) == bit(b.bitfields[6], fu));
        assert(b.holds(12, fu) == bit(b.bitfields[12], fu));
        assert(at[f] == b.at_spec(fu));
        assert(at[t] == b.at_spec(tu));
        if f >= 8 {
            assert(at[f - 8] == b.at_spec((f - 8) as u64));
        }
        if f + 8 < 64 {
            assert(at[f + 8] == b.at_spec((f + 8) as u64));
        }
        assert((bit(white, tu) <==> at[t].is_white_spec()) && (bit(black, tu)
            <==> at[t].is_black_spec()));
        assert((bit(white, fu) <==> at[f].is_white_spec()) && (bit(black, fu)
            <==> at[f].is_black_spec()));
    }
}

/// Mate, stated over the chess rules: `is_mate` holds exactly when every
/// move the rules allow for `c` leads to a position where `c` is still in
/// check. The quantifier over generated moves and the quantifier over
/// rule-level moves agree move for move.
pub proof fn lemma_mate_chess(b: Board, c: Color)
    requires
        b.wf(),
    ensures
        (forall|m: Move|
            b.gen_move_spec(c, m) ==> b.with_move_spec(m).in_check_spec(c)) <==> (forall|m: Move|
            chess_move_spec(b.view_seq(), c, m) ==> b.with_move_spec(m).in_check_spec(c)),
{
    if forall|m: Move| b.gen_move_spec(c, m) ==> b.with_move_spec(m).in_check_spec(c) {
        assert forall|m: Move|
            chess_move_spec(b.view_seq(), c, m) implies b.with_move_spec(m).in_check_spec(c) by {
            lemma_gen_move_chess(b, c, m);
        }
    }
    if forall|m: Move| chess_move_spec(b.view_seq(), c, m) ==> b.with_move_spec(m).in_check_spec(
        c,
    ) {
        assert forall|m: Move| b.gen_move_spec(c, m) implies b.with_move_spec(m).in_check_spec(
            c,
        ) by {
            lemma_gen_move_chess(b, c, m);
        }
    }
}

} // verus!
