use vstd::prelude::*;
use crate::color::Color;
use crate::moves::Move;
use crate::pos::{delta, delta_spec, lemma_offset_delta, pos, Pos};
use crate::rules::{chess_dest_spec, chess_move_spec, chess_ray, king_step, knight_jump, ray_n,
    ray_sq};
use crate::bits::Dir;
use crate::square::Square;

verus! {

/// The dense reference board: one square kind per cell, with move
/// generation by plain walking. It exists as an oracle to cross-check the
/// bitboard generator.
#[derive(PartialEq, Eq, Clone, Copy, Debug)]
pub struct Mailbox {
    pub board: [Square; 64],
}

impl Mailbox {
    pub open spec fn view_seq(self) -> Seq<Square> {
        self.board@
    }

    /// No cell holds the off-board sentinel.
    pub open spec fn wf(self) -> bool {
        self.board@.len() == 64 && forall|i: int| 0 <= i < 64 ==> self.board@[i] != Square::OffBoard
    }

    pub fn new() -> (r: Self)
        ensures
            r.wf(),
            forall|i: int| 0 <= i < 64 ==> r.view_seq()[i] == Square::Empty,
    {
        Mailbox { board: [Square::Empty;64] }
    }

    pub fn at(&self, pos: Pos) -> (r: Square)
        requires
            pos.valid(),
        ensures
            r == self.view_seq()[pos.index_spec()],
    {
        self.board[pos.index()]
    }

    pub fn set(&mut self, pos: Pos, sq: Square)
        requires
            old(self).wf(),
            pos.valid(),
            sq != Square::OffBoard,
        ensures
            final(self).wf(),
            final(self).view_seq() == old(self).view_seq().update(pos.index_spec(), sq),
    {
        let i = pos.index();
        self.board[i] = sq;
    }

    /// Play `mv` in place: the destination gets the origin's piece, the
    /// origin empties.
    pub fn do_move(&mut self, mv: Move)
        requires
            old(self).wf(),
            mv.valid_spec(),
        ensures
            final(self).wf(),
            final(self).view_seq() == old(self).view_seq().update(
                mv.to.index_spec(),
                old(self).view_seq()[mv.from.index_spec()],
            ).update(mv.from.index_spec(), Square::Empty),
    {
        let piece = self.at(mv.from);
        self.set(mv.to, piece);
        self.set(mv.from, Square::Empty);
    }

    /// Every square with its position, in row-major order.
    pub fn iter(&self) -> (r: Vec<(Pos, Square)>)
        requires
            self.wf(),
        ensures
            r@.len() == 64,
            forall|k: int|
                0 <= k < 64 ==> (#[trigger] r@[k]).0.valid() && r@[k].0.index_spec() == k
                    && r@[k].1 == self.view_seq()[k],
    {
        let mut r: Vec<(Pos, Square)> = Vec::new();
        let mut i: usize = 0;
        while i < 64
            invariant
                self.wf(),
                i <= 64,
                r@.len() == i,
                forall|k: int|
                    0 <= k < i ==> (#[trigger] r@[k]).0.valid() && r@[k].0.index_spec() == k
                        && r@[k].1 == self.view_seq()[k],
            decreases 64 - i,
        {
            let p = Pos::from_index(i);
            r.push((p, self.board[i]));
            i += 1;
        }
        r
    }

    /// One leaper step: append `pos` moved by `(dr, dc)` when it stays on
    /// the board and does not land on `player`'s own piece.
    fn try_jump(&self, dests: &mut Vec<Pos>, pos: Pos, dr: i8, dc: i8, player: Color)
        requires
            self.wf(),
            pos.valid(),
            -3 <= dr <= 3,
            -3 <= dc <= 3,
        ensures
            forall|q: Pos|
                #[trigger] final(dests)@.contains(q) <==> (old(dests)@.contains(q) || (q.valid()
                    && q.row_spec() == pos.row_spec() + dr && q.col_spec() == pos.col_spec() + dc
                    && self.view_seq()[q.index_spec()].color_spec() != Some(player))),
    {
        proof {
            lemma_offset_delta(pos, dr, dc);
        }
        let target = pos.offset(delta(dr, dc));
        let ghost pre = dests@;
        if target.is_valid() && !self.at(target).is_color(player) {
            dests.push(target);
        }
        proof {
            assert forall|q: Pos| #[trigger] dests@.contains(q) <==> (pre.contains(q) || (
            q.valid() && q.row_spec() == pos.row_spec() + dr && q.col_spec() == pos.col_spec() + dc
                && self.view_seq()[q.index_spec()].color_spec() != Some(player))) by {
                if dests@.contains(q) {
                    let k = choose|k: int| 0 <= k < dests@.len() && dests@[k] == q;
                    if k < pre.len() {
                        assert(pre[k] == q);
                        assert(pre.contains(q));
                    } else {
                        assert(q == target);
                    }
                }
                if pre.contains(q) {
                    let k = choose|k: int| 0 <= k < pre.len() && pre[k] == q;
                    assert(dests@[k] == q);
                    assert(dests@.contains(q));
                }
                if q.valid() && q.row_spec() == pos.row_spec() + dr && q.col_spec()
                    == pos.col_spec() + dc && self.view_seq()[q.index_spec()].color_spec() != Some(
                    player,
                ) && !pre.contains(q) {
                    crate::pos::lemma_pos_index_inj(q, target);
                    assert(dests@[dests@.len() - 1] == q);
                }
            }
        }
    }

    fn w_king_moves(&self, dests: &mut Vec<Pos>, pos: Pos)
        requires
            self.wf(),
            pos.valid(),
        ensures
            forall|q: Pos|
                #[trigger] final(dests)@.contains(q) <==> (old(dests)@.contains(q)
                    || jump_dest_spec(self.view_seq(), pos, q, Color::White, true)),
    {
        self.king_jumps(dests, pos, Color::White)
    }

    fn b_king_moves(&self, dests: &mut Vec<Pos>, pos: Pos)
        requires
            self.wf(),
            pos.valid(),
        ensures
            forall|q: Pos|
                #[trigger] final(dests)@.contains(q) <==> (old(dests)@.contains(q)
                    || jump_dest_spec(self.view_seq(), pos, q, Color::Black, true)),
    {
        self.king_jumps(dests, pos, Color::Black)
    }

    fn king_jumps(&self, dests: &mut Vec<Pos>, pos: Pos, player: Color)
        requires
            self.wf(),
            pos.valid(),
        ensures
            forall|q: Pos|
                #[trigger] final(dests)@.contains(q) <==> (old(dests)@.contains(q)
                    || jump_dest_spec(self.view_seq(), pos, q, player, true)),
    {
        self.try_jump(dests, pos, -1, -1, player);
        self.try_jump(dests, pos, -1, 0, player);
        self.try_jump(dests, pos, -1, 1, player);
        self.try_jump(dests, pos, 0, -1, player);
        self.try_jump(dests, pos, 0, 1, player);
        self.try_jump(dests, pos, 1, -1, player);
        self.try_jump(dests, pos, 1, 0, player);
        self.try_jump(dests, pos, 1, 1, player);
        proof {
            assert forall|q: Pos| #[trigger] final(dests)@.contains(q) <==> (old(
                dests,
            )@.contains(q) || jump_dest_spec(self.view_seq(), pos, q, player, true)) by {
                let fr = pos.row_spec();
                let fc = pos.col_spec();
                if q.valid() && jump_dest_spec(self.view_seq(), pos, q, player, true) {
                    let tr = q.row_spec();
                    let tc = q.col_spec();
                    assert(tr - fr == -1 || tr - fr == 0 || tr - fr == 1);
                    assert(tc - fc == -1 || tc - fc == 0 || tc - fc == 1);
                }
            }
        }
    }

    fn w_knight_moves(&self, dests: &mut Vec<Pos>, pos: Pos)
        requires
            self.wf(),
            pos.valid(),
        ensures
            forall|q: Pos|
                #[trigger] final(dests)@.contains(q) <==> (old(dests)@.contains(q)
                    || jump_dest_spec(self.view_seq(), pos, q, Color::White, false)),
    {
        self.knight_jumps(dests, pos, Color::White)
    }

    fn b_knight_moves(&self, dests: &mut Vec<Pos>, pos: Pos)
        requires
            self.wf(),
            pos.valid(),
        ensures
            forall|q: Pos|
                #[trigger] final(dests)@.contains(q) <==> (old(dests)@.contains(q)
                    || jump_dest_spec(self.view_seq(), pos, q, Color::Black, false)),
    {
        self.knight_jumps(dests, pos, Color::Black)
    }

    fn knight_jumps(&self, dests: &mut Vec<Pos>, pos: Pos, player: Color)
        requires
            self.wf(),
            pos.valid(),
        ensures
            forall|q: Pos|
                #[trigger] final(dests)@.contains(q) <==> (old(dests)@.contains(q)
                    || jump_dest_spec(self.view_seq(), pos, q, player, false)),
    {
        self.try_jump(dests, pos, -2, -1, player);
        self.try_jump(dests, pos, -2, 1, player);
        self.try_jump(dests, pos, -1, -2, player);
        self.try_jump(dests, pos, -1, 2, player);
        self.try_jump(dests, pos, 2, -1, player);
        self.try_jump(dests, pos, 2, 1, player);
        self.try_jump(dests, pos, 1, -2, player);
        self.try_jump(dests, pos, 1, 2, player);
        proof {
            assert forall|q: Pos| #[trigger] final(dests)@.contains(q) <==> (old(
                dests,
            )@.contains(q) || jump_dest_spec(self.view_seq(), pos, q, player, false)) by {
                let fr = pos.row_spec();
                let fc = pos.col_spec();
                if q.valid() && jump_dest_spec(self.view_seq(), pos, q, player, false) {
                    let tr = q.row_spec();
                    let tc = q.col_spec();
                    assert((tr - fr == 1 || tr - fr == -1 || tr - fr == 2 || tr - fr == -2));
                }
            }
        }
    }
}

/// A leaper destination: a king step (when `king` is set) or a knight jump
/// away, not landing on `player`'s own piece.
pub open spec fn jump_dest_spec(at: Seq<Square>, pos: Pos, q: Pos, player: Color, king: bool) -> bool {
    q.valid() && (if king {
        king_step(pos.row_spec(), pos.col_spec(), q.row_spec(), q.col_spec()) && q != pos
    } else {
        knight_jump(pos.row_spec(), pos.col_spec(), q.row_spec(), q.col_spec())
    }) && at[q.index_spec()].color_spec() != Some(player)
}

/// A slider destination: reachable along `d` through empty squares, not
/// occupied by `player`'s own piece.
pub open spec fn ray_dest_spec(at: Seq<Square>, pos: Pos, q: Pos, d: Dir, player: Color) -> bool {
    q.valid() && chess_ray(at, pos.index_spec(), q.index_spec(), d) && at[q.index_spec()].color_spec()
        != Some(player)
}

/// Coordinates that stay on the board after more ray steps were on the
/// board after fewer.
proof fn lemma_ray_range_mono(fr: int, fc: int, dr: int, dc: int, n: int, n2: int)
    by (nonlinear_arith)
    requires
        0 <= fr < 8,
        0 <= fc < 8,
        -1 <= dr <= 1,
        -1 <= dc <= 1,
        0 <= n <= n2,
        0 <= fr + n2 * dr < 8,
        0 <= fc + n2 * dc < 8,
    ensures
        0 <= fr + n * dr < 8,
        0 <= fc + n * dc < 8,
{
}

impl Mailbox {
    /// Walk from `pos` in direction `d`: append the empty squares passed
    /// and, when the walk hits a piece, that square too if it can be taken.
    #[verifier::rlimit(80)]
    #[verifier::spinoff_prover]
    fn march(&self, dests: &mut Vec<Pos>, player: Color, pos: Pos, d: Dir)
        requires
            self.wf(),
            pos.valid(),
        ensures
            forall|q: Pos|
                #[trigger] final(dests)@.contains(q) <==> (old(dests)@.contains(q)
                    || ray_dest_spec(self.view_seq(), pos, q, d, player)),
    {
        let (dr, dc) = dir_delta(d);
        let dlt = delta(dr, dc);
        let ghost at = self.view_seq();
        let ghost f = pos.index_spec();
        let ghost fr = pos.row_spec();
        let ghost fc = pos.col_spec();
        proof {
            vstd::arithmetic::div_mod::lemma_fundamental_div_mod_converse(f, 8, fr, fc);
        }
        let mut cur = pos.offset(dlt);
        let ghost mut n: int = 1;
        let mut stop = false;
        proof {
            lemma_offset_delta(pos, dr, dc);
        }
        while !stop && cur.is_valid()
            invariant
                self.wf(),
                pos.valid(),
                at == self.view_seq(),
                f == pos.index_spec(),
                fr == pos.row_spec(),
                fc == pos.col_spec(),
                f / 8 == fr && f % 8 == fc,
                dr as int == d.dr(),
                dc as int == d.dc(),
                dlt == delta_spec(dr, dc),
                1 <= n <= 8,
                !stop ==> cur == pos.offset_spec(dlt) || n > 1,
                !stop ==> (cur.valid() <==> (0 <= fr + n * d.dr() < 8 && 0 <= fc + n * d.dc()
                    < 8)),
                !stop && cur.valid() ==> cur.row_spec() == fr + n * d.dr() && cur.col_spec() == fc
                    + n * d.dc(),
                forall|j: int|
                    1 <= j < n ==> 0 <= #[trigger] ray_sq(f, d, j) < 64 && at[ray_sq(f, d, j)]
                        == Square::Empty,
                !stop ==> forall|q: Pos|
                    #[trigger] dests@.contains(q) <==> (old(dests)@.contains(q) || (exists|m: int|
                        1 <= m < n && ray_n(at, f, q.index_spec(), d, m) && q.valid()
                            && at[q.index_spec()].color_spec() != Some(player))),
                stop ==> forall|q: Pos|
                    #[trigger] dests@.contains(q) <==> (old(dests)@.contains(q) || ray_dest_spec(
                        at,
                        pos,
                        q,
                        d,
                        player,
                    )),
            decreases 8 - n, if stop { 0int } else { 1int },
        {
            let ghost tr = fr + n * d.dr();
            let ghost tc = fc + n * d.dc();
            let ghost t = cur.index_spec();
            proof {
                vstd::arithmetic::div_mod::lemma_fundamental_div_mod_converse(t, 8, tr, tc);
                assert(ray_n(at, f, t, d, n));
                crate::rules::lemma_ray_idx(f, t, d, n);
            }
            let sq = self.at(cur);
            let ghost pre = dests@;
            if sq.is_empty() {
                dests.push(cur);
                proof {
                    lemma_offset_delta(cur, dr, dc);
                    assert forall|q: Pos| #[trigger] dests@.contains(q) <==> (old(
                        dests,
                    )@.contains(q) || (exists|m: int|
                        1 <= m < n + 1 && ray_n(at, f, q.index_spec(), d, m) && q.valid()
                            && at[q.index_spec()].color_spec() != Some(player))) by {
                        if dests@.contains(q) {
                            let k = choose|k: int| 0 <= k < dests@.len() && dests@[k] == q;
                            if k < pre.len() {
                                assert(pre[k] == q);
                                assert(pre.contains(q));
                            } else {
                                assert(q == cur);
                                assert(ray_n(at, f, q.index_spec(), d, n));
                            }
                        }
                        if pre.contains(q) {
                            let k = choose|k: int| 0 <= k < pre.len() && pre[k] == q;
                            assert(dests@[k] == q);
                            assert(dests@.contains(q));
                        }
                        if !pre.contains(q) && q.valid() && (exists|m: int|
                            1 <= m < n + 1 && ray_n(at, f, q.index_spec(), d, m))
                            && at[q.index_spec()].color_spec() != Some(player) {
                            let m = choose|m: int| 1 <= m < n + 1 && ray_n(
                                at,
                                f,
                                q.index_spec(),
                                d,
                                m,
                            );
                            if m == n {
                                crate::rules::lemma_ray_idx(f, q.index_spec(), d, n);
                                crate::pos::lemma_pos_index_inj(q, cur);
                                assert(dests@[dests@.len() - 1] == q);
                            }
                        }
                    }
                    // the square just passed becomes an empty intermediate
                    assert(ray_sq(f, d, n) == t);
                    n = n + 1;
                    assert forall|j: int| 1 <= j < n implies 0 <= #[trigger] ray_sq(f, d, j) < 64
                        && at[ray_sq(f, d, j)] == Square::Empty by {}
                }
                cur = cur.offset(dlt);
                proof {
                    assert(fr + n * d.dr() == fr + (n - 1) * d.dr() + d.dr()) by (nonlinear_arith);
                    assert(fc + n * d.dc() == fc + (n - 1) * d.dc() + d.dc()) by (nonlinear_arith);
                    assert((8 - n) < (8 - (n - 1)));
                    if n == 8 {
                        // nine steps never fit on the board; the next test fails
                        assert(!(0 <= fr + 8 * d.dr() < 8 && 0 <= fc + 8 * d.dc() < 8)) by {
                            lemma_ray_range_mono_contra(fr, fc, d.dr(), d.dc());
                        }
                    }
                }
            } else {
                if sq.is_color(player.opposite()) {
                    dests.push(cur);
                }
                stop = true;
                proof {
                    assert forall|q: Pos| #[trigger] dests@.contains(q) <==> (old(
                        dests,
                    )@.contains(q) || ray_dest_spec(at, pos, q, d, player)) by {
                        if dests@.contains(q) {
                            let k = choose|k: int| 0 <= k < dests@.len() && dests@[k] == q;
                            if k < pre.len() {
                                assert(pre[k] == q);
                                assert(pre.contains(q));
                            } else {
                                assert(q == cur);
                            }
                        }
                        if pre.contains(q) {
                            let k = choose|k: int| 0 <= k < pre.len() && pre[k] == q;
                            assert(dests@[k] == q);
                            assert(dests@.contains(q));
                        }
                        if !pre.contains(q) && ray_dest_spec(at, pos, q, d, player) {
                            let m = choose|m: int| ray_n(at, f, q.index_spec(), d, m);
                            if m < n {
                                assert(pre.contains(q));
                            } else if m == n {
                                crate::rules::lemma_ray_idx(f, q.index_spec(), d, m);
                                crate::pos::lemma_pos_index_inj(q, cur);
                                assert(at[t].color_spec() == Some(player.opposite_spec())
                                    || at[t] == Square::Empty) by {
                                    assert(at[t] != Square::OffBoard);
                                }
                                assert(dests@[dests@.len() - 1] == q);
                            } else {
                                // the blocker stands strictly between: no ray
                                assert(ray_sq(f, d, n) == t);
                                assert(at[ray_sq(f, d, n)] == Square::Empty);
                                assert(false);
                            }
                        }
                    }
                }
            }
        }
        proof {
            if !stop {
                // walked off the board: no further squares lie on the ray
                assert forall|q: Pos| #[trigger] dests@.contains(q) <==> (old(dests)@.contains(q)
                    || ray_dest_spec(at, pos, q, d, player)) by {
                    if !dests@.contains(q) && ray_dest_spec(at, pos, q, d, player) {
                        let m = choose|m: int| ray_n(at, f, q.index_spec(), d, m);
                        if m >= n {
                            let qr = q.index_spec() / 8;
                            let qc = q.index_spec() % 8;
                            vstd::arithmetic::div_mod::lemma_fundamental_div_mod(
                                q.index_spec(),
                                8,
                            );
                            lemma_ray_range_mono(fr, fc, d.dr(), d.dc(), n, m);
                            assert(false);
                        }
                    }
                    if dests@.contains(q) && !old(dests)@.contains(q) {
                        assert(exists|m: int|
                            1 <= m < n && ray_n(at, f, q.index_spec(), d, m) && q.valid()
                                && at[q.index_spec()].color_spec() != Some(player));
                    }
                }
            }
        }
    }
}

/// Eight or more steps in any direction leave the board.
proof fn lemma_ray_range_mono_contra(fr: int, fc: int, dr: int, dc: int)
    by (nonlinear_arith)
    requires
        0 <= fr < 8,
        0 <= fc < 8,
        -1 <= dr <= 1,
        -1 <= dc <= 1,
        dr != 0 || dc != 0,
    ensures
        !(0 <= fr + 8 * dr < 8 && 0 <= fc + 8 * dc < 8),
{
}

/// Direction deltas for the walking generator.
fn dir_delta(d: Dir) -> (r: (i8, i8))
    ensures
        r.0 as int == d.dr(),
        r.1 as int == d.dc(),
{
    match d {
        Dir::N => (1, 0),
        Dir::E => (0, 1),
        Dir::S => (-1, 0),
        Dir::W => (0, -1),
        Dir::NE => (1, 1),
        Dir::SE => (-1, 1),
        Dir::SW => (-1, -1),
        Dir::NW => (1, -1),
    }
}

/// A pawn push destination: one step forward onto an empty square, or two
/// from the home rank across an empty square.
pub open spec fn pawn_push_dest_spec(at: Seq<Square>, pos: Pos, q: Pos, dr: int, first_row: int) -> bool {
    q.valid() && q.col_spec() == pos.col_spec() && ((q.row_spec() == pos.row_spec() + dr
        && at[q.index_spec()] == Square::Empty) || (q.row_spec() == pos.row_spec() + 2 * dr
        && pos.row_spec() + dr == first_row && at[q.index_spec() - 8 * dr] == Square::Empty
        && at[q.index_spec()] == Square::Empty))
}

/// A pawn capture destination: one step forward and one aside, onto an
/// opponent piece.
pub open spec fn pawn_capture_dest_spec(at: Seq<Square>, pos: Pos, q: Pos, dr: int, player: Color) -> bool {
    q.valid() && q.row_spec() == pos.row_spec() + dr && (q.col_spec() == pos.col_spec() + 1
        || q.col_spec() + 1 == pos.col_spec()) && at[q.index_spec()].color_spec() == Some(
        player.opposite_spec(),
    )
}

impl Mailbox {
    /// Pawn pushes: one square forward when empty, two from the home rank.
    fn pawn_pushes(&self, dests: &mut Vec<Pos>, pos: Pos, dr: i8, first_row: u8)
        requires
            self.wf(),
            pos.valid(),
            dr == 1i8 || dr == -1i8,
            dr == 1i8 ==> first_row == 2,
            dr == -1i8 ==> first_row == 5,
        ensures
            forall|q: Pos|
                #[trigger] final(dests)@.contains(q) <==> (old(dests)@.contains(q)
                    || pawn_push_dest_spec(
                    self.view_seq(),
                    pos,
                    q,
                    dr as int,
                    first_row as int,
                )),
    {
        let ghost at = self.view_seq();
        let ghost pre = dests@;
        proof {
            lemma_offset_delta(pos, dr, 0);
        }
        let step = delta(dr, 0);
        let p1 = pos.offset(step);
        let mut pushed2: Option<Pos> = None;
        if p1.is_valid() && self.at(p1).is_empty() {
            dests.push(p1);
            if p1.row() == first_row {
                proof {
                    lemma_offset_delta(p1, dr, 0);
                }
                let p2 = p1.offset(step);
                if self.at(p2).is_empty() {
                    dests.push(p2);
                    pushed2 = Some(p2);
                }
            }
        }
        proof {
            crate::pos::lemma_pos_coords(pos);
            assert forall|q: Pos| #[trigger] dests@.contains(q) <==> (pre.contains(q)
                || pawn_push_dest_spec(at, pos, q, dr as int, first_row as int)) by {
                if q.valid() {
                    crate::pos::lemma_pos_coords(q);
                }
                if dests@.contains(q) {
                    let k = choose|k: int| 0 <= k < dests@.len() && dests@[k] == q;
                    if k < pre.len() {
                        assert(pre[k] == q);
                        assert(pre.contains(q));
                    } else {
                        crate::pos::lemma_pos_coords(p1);
                        assert(pawn_push_dest_spec(at, pos, q, dr as int, first_row as int));
                    }
                }
                if pre.contains(q) {
                    let k = choose|k: int| 0 <= k < pre.len() && pre[k] == q;
                    assert(dests@[k] == q);
                    assert(dests@.contains(q));
                }
                if pawn_push_dest_spec(at, pos, q, dr as int, first_row as int) && !pre.contains(
                    q,
                ) {
                    if q.row_spec() == pos.row_spec() + dr {
                        crate::pos::lemma_pos_index_inj(q, p1);
                        assert(dests@[pre.len() as int] == q);
                        assert(dests@.contains(q));
                    } else {
                        crate::pos::lemma_pos_coords(p1);
                        assert(at[p1.index_spec()] == Square::Empty);
                        assert(p1.row_spec() == first_row);
                        match pushed2 {
                            Some(p2) => {
                                crate::pos::lemma_pos_index_inj(q, p2);
                                assert(dests@[dests@.len() - 1] == q);
                                assert(dests@.contains(q));
                            },
                            None => {
                                assert(false);
                            },
                        }
                    }
                }
            }
        }
    }

    /// Pawn captures: the two forward diagonals, when they hold an opponent
    /// piece.
    fn pawn_captures(&self, dests: &mut Vec<Pos>, player: Color, pos: Pos, dr: i8)
        requires
            self.wf(),
            pos.valid(),
            dr == 1i8 || dr == -1i8,
        ensures
            forall|q: Pos|
                #[trigger] final(dests)@.contains(q) <==> (old(dests)@.contains(q)
                    || pawn_capture_dest_spec(self.view_seq(), pos, q, dr as int, player)),
    {
        let ghost at = self.view_seq();
        let ghost b0 = dests@;
        self.pawn_capture_side(dests, player, pos, dr, -1);
        let ghost b1 = dests@;
        self.pawn_capture_side(dests, player, pos, dr, 1);
        proof {
            assert forall|q: Pos| #[trigger] dests@.contains(q) <==> (b0.contains(q)
                || pawn_capture_dest_spec(at, pos, q, dr as int, player)) by {
                assert(b1.contains(q) <==> (b0.contains(q) || (q.valid() && q.row_spec()
                    == pos.row_spec() + dr && q.col_spec() + 1 == pos.col_spec() && at[
                    q.index_spec()].color_spec() == Some(player.opposite_spec()))));
                assert(dests@.contains(q) <==> (b1.contains(q) || (q.valid() && q.row_spec()
                    == pos.row_spec() + dr && q.col_spec() == pos.col_spec() + 1 && at[
                    q.index_spec()].color_spec() == Some(player.opposite_spec()))));
            }
        }
    }

    /// One pawn capture diagonal.
    fn pawn_capture_side(&self, dests: &mut Vec<Pos>, player: Color, pos: Pos, dr: i8, dc: i8)
        requires
            self.wf(),
            pos.valid(),
            -1 <= dr <= 1,
            -1 <= dc <= 1,
        ensures
            forall|q: Pos|
                #[trigger] final(dests)@.contains(q) <==> (old(dests)@.contains(q) || (q.valid()
                    && q.row_spec() == pos.row_spec() + dr && q.col_spec() == pos.col_spec() + dc
                    && self.view_seq()[q.index_spec()].color_spec() == Some(
                    player.opposite_spec(),
                ))),
    {
        proof {
            lemma_offset_delta(pos, dr, dc);
        }
        let target = pos.offset(delta(dr, dc));
        let ghost pre = dests@;
        if target.is_valid() && self.at(target).is_color(player.opposite()) {
            dests.push(target);
        }
        proof {
            assert forall|q: Pos| #[trigger] dests@.contains(q) <==> (pre.contains(q) || (
            q.valid() && q.row_spec() == pos.row_spec() + dr && q.col_spec() == pos.col_spec() + dc
                && self.view_seq()[q.index_spec()].color_spec() == Some(player.opposite_spec())))
                by {
                if dests@.contains(q) {
                    let k = choose|k: int| 0 <= k < dests@.len() && dests@[k] == q;
                    if k < pre.len() {
                        assert(pre[k] == q);
                        assert(pre.contains(q));
                    } else {
                        assert(q == target);
                    }
                }
                if pre.contains(q) {
                    let k = choose|k: int| 0 <= k < pre.len() && pre[k] == q;
                    assert(dests@[k] == q);
                    assert(dests@.contains(q));
                }
                if q.valid() && q.row_spec() == pos.row_spec() + dr && q.col_spec()
                    == pos.col_spec() + dc && self.view_seq()[q.index_spec()].color_spec() == Some(
                    player.opposite_spec(),
                ) && !pre.contains(q) {
                    crate::pos::lemma_pos_index_inj(q, target);
                    assert(dests@[dests@.len() - 1] == q);
                }
            }
        }
    }

    /// Every destination of the piece standing on `pos`, by the rules.
    pub fn dests_for(&self, pos: Pos) -> (r: Vec<Pos>)
        requires
            self.wf(),
            pos.valid(),
        ensures
            forall|q: Pos|
                #[trigger] r@.contains(q) <==> (q.valid() && chess_dest_spec(
                    self.view_seq(),
                    pos.index_spec(),
                    q.index_spec(),
                )),
    {
        let ghost at = self.view_seq();
        let ghost f = pos.index_spec();
        let mut dests: Vec<Pos> = Vec::new();
        let piece = self.at(pos);
        proof {
            crate::pos::lemma_pos_coords(pos);
        }
        match piece {
            Square::Empty => (),
            Square::WPawn => {
                self.pawn_captures(&mut dests, Color::White, pos, 1);
                self.pawn_pushes(&mut dests, pos, 1, 2);
            },
            Square::BPawn => {
                self.pawn_captures(&mut dests, Color::Black, pos, -1);
                self.pawn_pushes(&mut dests, pos, -1, 5);
            },
            Square::WRook => {
                self.rook_marches(&mut dests, Color::White, pos);
            },
            Square::BRook => {
                self.rook_marches(&mut dests, Color::Black, pos);
            },
            Square::WBisshop => {
                self.bisshop_marches(&mut dests, Color::White, pos);
            },
            Square::BBisshop => {
                self.bisshop_marches(&mut dests, Color::Black, pos);
            },
            Square::WQueen => {
                self.rook_marches(&mut dests, Color::White, pos);
                self.bisshop_marches(&mut dests, Color::White, pos);
            },
            Square::BQueen => {
                self.rook_marches(&mut dests, Color::Black, pos);
                self.bisshop_marches(&mut dests, Color::Black, pos);
            },
            Square::WKnight => {
                self.w_knight_moves(&mut dests, pos);
            },
            Square::BKnight => {
                self.b_knight_moves(&mut dests, pos);
            },
            Square::WKing => {
                self.w_king_moves(&mut dests, pos);
            },
            Square::BKing => {
                self.b_king_moves(&mut dests, pos);
            },
            Square::OffBoard => (),
        }
        proof {
            assert forall|q: Pos| #[trigger] dests@.contains(q) <==> (q.valid()
                && chess_dest_spec(at, f, q.index_spec())) by {
                if q.valid() {
                    crate::pos::lemma_pos_coords(q);
                }
            }
        }
        dests
    }

    fn rook_marches(&self, dests: &mut Vec<Pos>, player: Color, pos: Pos)
        requires
            self.wf(),
            pos.valid(),
        ensures
            forall|q: Pos|
                #[trigger] final(dests)@.contains(q) <==> (old(dests)@.contains(q)
                    || ray_dest_spec(self.view_seq(), pos, q, Dir::N, player) || ray_dest_spec(
                    self.view_seq(),
                    pos,
                    q,
                    Dir::E,
                    player,
                ) || ray_dest_spec(self.view_seq(), pos, q, Dir::S, player) || ray_dest_spec(
                    self.view_seq(),
                    pos,
                    q,
                    Dir::W,
                    player,
                )),
    {
        let ghost b0 = dests@;
        self.march(dests, player, pos, Dir::N);
        let ghost b1 = dests@;
        self.march(dests, player, pos, Dir::E);
        let ghost b2 = dests@;
        self.march(dests, player, pos, Dir::S);
        let ghost b3 = dests@;
        self.march(dests, player, pos, Dir::W);
        proof {
            let at = self.view_seq();
            assert forall|q: Pos| #[trigger] dests@.contains(q) <==> (b0.contains(q)
                || ray_dest_spec(at, pos, q, Dir::N, player) || ray_dest_spec(
                at,
                pos,
                q,
                Dir::E,
                player,
            ) || ray_dest_spec(at, pos, q, Dir::S, player) || ray_dest_spec(
                at,
                pos,
                q,
                Dir::W,
                player,
            )) by {
                assert(b1.contains(q) <==> (b0.contains(q) || ray_dest_spec(
                    at,
                    pos,
                    q,
                    Dir::N,
                    player,
                )));
                assert(b2.contains(q) <==> (b1.contains(q) || ray_dest_spec(
                    at,
                    pos,
                    q,
                    Dir::E,
                    player,
                )));
                assert(b3.contains(q) <==> (b2.contains(q) || ray_dest_spec(
                    at,
                    pos,
                    q,
                    Dir::S,
                    player,
                )));
                assert(dests@.contains(q) <==> (b3.contains(q) || ray_dest_spec(
                    at,
                    pos,
                    q,
                    Dir::W,
                    player,
                )));
            }
        }
    }

    fn bisshop_marches(&self, dests: &mut Vec<Pos>, player: Color, pos: Pos)
        requires
            self.wf(),
            pos.valid(),
        ensures
            forall|q: Pos|
                #[trigger] final(dests)@.contains(q) <==> (old(dests)@.contains(q)
                    || ray_dest_spec(self.view_seq(), pos, q, Dir::NE, player) || ray_dest_spec(
                    self.view_seq(),
                    pos,
                    q,
                    Dir::SE,
                    player,
                ) || ray_dest_spec(self.view_seq(), pos, q, Dir::SW, player) || ray_dest_spec(
                    self.view_seq(),
                    pos,
                    q,
                    Dir::NW,
                    player,
                )),
    {
        let ghost b0 = dests@;
        self.march(dests, player, pos, Dir::NE);
        let ghost b1 = dests@;
        self.march(dests, player, pos, Dir::SE);
        let ghost b2 = dests@;
        self.march(dests, player, pos, Dir::SW);
        let ghost b3 = dests@;
        self.march(dests, player, pos, Dir::NW);
        proof {
            let at = self.view_seq();
            assert forall|q: Pos| #[trigger] dests@.contains(q) <==> (b0.contains(q)
                || ray_dest_spec(at, pos, q, Dir::NE, player) || ray_dest_spec(
                at,
                pos,
                q,
                Dir::SE,
                player,
            ) || ray_dest_spec(at, pos, q, Dir::SW, player) || ray_dest_spec(
                at,
                pos,
                q,
                Dir::NW,
                player,
            )) by {
                assert(b1.contains(q) <==> (b0.contains(q) || ray_dest_spec(
                    at,
                    pos,
                    q,
                    Dir::NE,
                    player,
                )));
                assert(b2.contains(q) <==> (b1.contains(q) || ray_dest_spec(
                    at,
                    pos,
                    q,
                    Dir::SE,
                    player,
                )));
                assert(b3.contains(q) <==> (b2.contains(q) || ray_dest_spec(
                    at,
                    pos,
                    q,
                    Dir::SW,
                    player,
                )));
                assert(dests@.contains(q) <==> (b3.contains(q) || ray_dest_spec(
                    at,
                    pos,
                    q,
                    Dir::NW,
                    player,
                )));
            }
        }
    }
}

/// Is `c`'s king on a square the other side can move to?
pub open spec fn ml_in_check_spec(at: Seq<Square>, c: Color) -> bool {
    exists|m: Move|
        #[trigger] chess_move_spec(at, c.opposite_spec(), m) && at[m.to.index_spec()]
            == c.king_spec()
}

/// The board squares after playing `m` on `at`.
pub open spec fn ml_after_spec(at: Seq<Square>, m: Move) -> Seq<Square> {
    at.update(m.to.index_spec(), at[m.from.index_spec()]).update(m.from.index_spec(), Square::Empty)
}

impl Mailbox {
    /// Every pseudo-legal move of `player`, by walking the board.
    pub fn collect_moves(&self, player: Color) -> (r: Vec<Move>)
        requires
            self.wf(),
        ensures
            forall|m: Move|
                #[trigger] r@.contains(m) <==> chess_move_spec(self.view_seq(), player, m),
    {
        let ghost at = self.view_seq();
        let mut moves: Vec<Move> = Vec::new();
        let mut i: usize = 0;
        while i < 64
            invariant
                self.wf(),
                at == self.view_seq(),
                i <= 64,
                forall|kk: int|
                    0 <= kk < moves@.len() ==> chess_move_spec(at, player, #[trigger] moves@[kk])
                        && moves@[kk].from.index_spec() < i,
                forall|m: Move|
                    chess_move_spec(at, player, m) && m.from.index_spec() < i
                        ==> #[trigger] moves@.contains(m),
            decreases 64 - i,
        {
            let p = Pos::from_index(i);
            let piece = self.at(p);
            if piece.is_color(player) {
                let dests = self.dests_for(p);
                proof {
                    assert forall|k: int| 0 <= k < dests@.len() implies (
                    #[trigger] dests@[k]).valid() && chess_dest_spec(
                        at,
                        i as int,
                        dests@[k].index_spec(),
                    ) by {
                        assert(dests@.contains(dests@[k]));
                    }
                }
                let mut n: usize = 0;
                while n < dests.len()
                    invariant
                        self.wf(),
                        at == self.view_seq(),
                        i < 64,
                        p.valid(),
                        p.index_spec() == i,
                        piece == at[i as int],
                        piece.color_spec() == Some(player),
                        n <= dests@.len(),
                        forall|q: Pos|
                            #[trigger] dests@.contains(q) <==> (q.valid() && chess_dest_spec(
                                at,
                                i as int,
                                q.index_spec(),
                            )),
                        forall|k: int|
                            0 <= k < dests@.len() ==> (#[trigger] dests@[k]).valid()
                                && chess_dest_spec(at, i as int, dests@[k].index_spec()),
                        forall|kk: int|
                            0 <= kk < moves@.len() ==> chess_move_spec(
                                at,
                                player,
                                #[trigger] moves@[kk],
                            ) && moves@[kk].from.index_spec() <= i,
                        forall|m: Move|
                            chess_move_spec(at, player, m) && m.from.index_spec() < i
                                ==> #[trigger] moves@.contains(m),
                        forall|m: Move, k: int|
                            chess_move_spec(at, player, m) && m.from == p && 0 <= k < n && (
                            #[trigger] dests@[k]) == m.to ==> #[trigger] moves@.contains(m),
                    decreases dests@.len() - n,
                {
                    let dst = dests[n];
                    proof {
                        assert(dests@.contains(dst));
                        assert(dst != p) by {
                            if dst == p {
                                assert(chess_dest_spec(at, i as int, i as int));
                                crate::pos::lemma_pos_coords(p);
                            }
                        }
                    }
                    let m0 = Move::new(piece, p, dst);
                    let ghost pre = moves@;
                    moves.push(m0);
                    proof {
                        assert(moves@[moves@.len() - 1] == m0);
                        assert(chess_move_spec(at, player, m0));
                        assert forall|m: Move| pre.contains(m) implies #[trigger] moves@.contains(
                            m,
                        ) by {
                            let k = choose|k: int| 0 <= k < pre.len() && pre[k] == m;
                            assert(moves@[k] == m);
                        }
                        assert forall|m: Move, k: int|
                            chess_move_spec(at, player, m) && m.from == p && 0 <= k < n + 1 && (
                            #[trigger] dests@[k]) == m.to implies #[trigger] moves@.contains(
                            m,
                        ) by {
                            if k == n {
                                assert(m == m0);
                            } else {
                                assert(pre.contains(m));
                            }
                        }
                    }
                    n += 1;
                }
                proof {
                    assert forall|m: Move|
                        chess_move_spec(at, player, m) && m.from.index_spec() < i + 1
                            implies #[trigger] moves@.contains(m) by {
                        if m.from.index_spec() == i {
                            crate::pos::lemma_pos_index_inj(m.from, p);
                            assert(dests@.contains(m.to));
                            let k = choose|k: int| 0 <= k < dests@.len() && dests@[k] == m.to;
                        }
                    }
                }
            } else {
                proof {
                    assert forall|m: Move|
                        chess_move_spec(at, player, m) && m.from.index_spec() < i + 1
                            implies #[trigger] moves@.contains(m) by {
                        if m.from.index_spec() == i {
                            crate::pos::lemma_pos_index_inj(m.from, p);
                            assert(false);
                        }
                    }
                }
            }
            i += 1;
        }
        proof {
            assert forall|m: Move| #[trigger] moves@.contains(m) <==> chess_move_spec(
                at,
                player,
                m,
            ) by {
                if moves@.contains(m) {
                    let k = choose|k: int| 0 <= k < moves@.len() && moves@[k] == m;
                }
                if chess_move_spec(at, player, m) {
                    crate::pos::lemma_pos_coords(m.from);
                }
            }
        }
        moves
    }

    /// Is `player` in check: does any opponent move reach `player`'s king?
    pub fn is_check(&self, player: Color) -> (r: bool)
        requires
            self.wf(),
        ensures
            r == ml_in_check_spec(self.view_seq(), player),
    {
        let ghost at = self.view_seq();
        let opp_moves = self.collect_moves(player.opposite());
        let mut n: usize = 0;
        while n < opp_moves.len()
            invariant
                self.wf(),
                at == self.view_seq(),
                n <= opp_moves@.len(),
                forall|m: Move|
                    #[trigger] opp_moves@.contains(m) <==> chess_move_spec(
                        at,
                        player.opposite_spec(),
                        m,
                    ),
                forall|k: int|
                    0 <= k < n ==> at[(#[trigger] opp_moves@[k]).to.index_spec()]
                        != player.king_spec(),
            decreases opp_moves@.len() - n,
        {
            let m = opp_moves[n];
            proof {
                assert(opp_moves@.contains(m));
                crate::pos::lemma_pos_coords(m.to);
            }
            if self.at(m.to) == player.king() {
                proof {
                    assert(chess_move_spec(at, player.opposite_spec(), m) && at[m.to.index_spec()]
                        == player.king_spec());
                }
                return true;
            }
            n += 1;
        }
        proof {
            if ml_in_check_spec(at, player) {
                let m = choose|m: Move|
                    #[trigger] chess_move_spec(at, player.opposite_spec(), m) && at[
                    m.to.index_spec()] == player.king_spec();
                assert(opp_moves@.contains(m));
                let k = choose|k: int| 0 <= k < opp_moves@.len() && opp_moves@[k] == m;
                assert(false);
            }
        }
        false
    }

    /// Is `player` mated: every pseudo-legal move still leaves the mover's
    /// king reachable by the opponent.
    pub fn is_mate(&self, player: Color) -> (r: bool)
        requires
            self.wf(),
        ensures
            r == forall|m: Move|
                #[trigger] chess_move_spec(self.view_seq(), player, m) ==> ml_in_check_spec(
                    ml_after_spec(self.view_seq(), m),
                    player,
                ),
    {
        let ghost at = self.view_seq();
        let moves = self.collect_moves(player);
        let mut n: usize = 0;
        while n < moves.len()
            invariant
                self.wf(),
                at == self.view_seq(),
                n <= moves@.len(),
                forall|m: Move| #[trigger] moves@.contains(m) <==> chess_move_spec(at, player, m),
                forall|k: int|
                    0 <= k < n ==> ml_in_check_spec(
                        ml_after_spec(at, #[trigger] moves@[k]),
                        player,
                    ),
            decreases moves@.len() - n,
        {
            let mv = moves[n];
            proof {
                assert(moves@.contains(mv));
            }
            let mut b2 = *self;
            b2.do_move(mv);
            if !b2.is_check(player) {
                proof {
                    assert(chess_move_spec(at, player, mv) && !ml_in_check_spec(
                        ml_after_spec(at, mv),
                        player,
                    ));
                }
                return false;
            }
            n += 1;
        }
        proof {
            assert forall|m: Move| #[trigger] chess_move_spec(at, player, m)
                implies ml_in_check_spec(ml_after_spec(at, m), player) by {
                assert(moves@.contains(m));
                let k = choose|k: int| 0 <= k < moves@.len() && moves@[k] == m;
            }
        }
        true
    }

    /// The usual starting position.
    pub fn starting_position() -> (r: Self)
        ensures
            r.wf(),
            forall|i: int|
                0 <= i < 64 ==> r.view_seq()[i] == crate::board::Board::starting_at(i as u64),
    {
        let mut b = Self::new();
        b.set(pos(0, 0), Square::WRook);
        b.set(pos(0, 1), Square::WKnight);
        b.set(pos(0, 2), Square::WBisshop);
        b.set(pos(0, 3), Square::WKing);
        b.set(pos(0, 4), Square::WQueen);
        b.set(pos(0, 5), Square::WBisshop);
        b.set(pos(0, 6), Square::WKnight);
        b.set(pos(0, 7), Square::WRook);

        let mut c: u8 = 0;
        while c < 8
            invariant
                b.wf(),
                c <= 8,
                forall|i: int|
                    0 <= i < 64 ==> b.view_seq()[i] == (if i / 8 == 1 && i % 8 < c {
                        Square::WPawn
                    } else if i / 8 == 6 && i % 8 < c {
                        Square::BPawn
                    } else if i / 8 == 0 {
                        crate::board::Board::white_rank((i % 8) as u64)
                    } else {
                        Square::Empty
                    }),
            decreases 8 - c,
        {
            b.set(pos(1, c), Square::WPawn);
            b.set(pos(6, c), Square::BPawn);
            c += 1;
        }

        b.set(pos(7, 0), Square::BRook);
        b.set(pos(7, 1), Square::BKnight);
        b.set(pos(7, 2), Square::BBisshop);
        b.set(pos(7, 3), Square::BKing);
        b.set(pos(7, 4), Square::BQueen);
        b.set(pos(7, 5), Square::BBisshop);
        b.set(pos(7, 6), Square::BKnight);
        b.set(pos(7, 7), Square::BRook);

        b
    }
}

/// The two move generators agree: on one and the same position, the
/// bitboard generator emits a move exactly when the walking reference
/// generator does.
pub proof fn lemma_generator_equivalence(
    b: crate::board::Board,
    mb: Mailbox,
    c: Color,
    m: Move,
)
    requires
        b.wf(),
        mb.wf(),
        mb.view_seq() == b.view_seq(),
    ensures
        b.gen_move_spec(c, m) <==> chess_move_spec(mb.view_seq(), c, m),
{
    crate::rules::lemma_gen_move_chess(b, c, m);
}

impl Mailbox {
    /// Copy a mask board square by square.
    pub fn from_board(b: &crate::board::Board) -> (r: Self)
        requires
            b.wf(),
        ensures
            r.wf(),
            forall|i: int| 0 <= i < 64 ==> r.view_seq()[i] == b.view_seq()[i],
    {
        let mut mb = Mailbox::new();
        let mut i: usize = 0;
        while i < 64
            invariant
                b.wf(),
                mb.wf(),
                i <= 64,
                forall|i2: int| 0 <= i2 < i ==> mb.view_seq()[i2] == b.view_seq()[i2],
            decreases 64 - i,
        {
            let p = Pos::from_index(i);
            let sq = b.at(p);
            proof {
                b.lemma_at(i as u64);
                crate::board::lemma_sq_of_index();
            }
            mb.set(p, sq);
            i += 1;
        }
        mb
    }

    /// Parse a board from its text notation.
    pub fn parse(s: &str) -> (r: Result<Self, crate::parser::ParseError>)
        ensures
            r matches Ok(mb) ==> mb.wf(),
            crate::parser::is_board_text(s@) ==> (r matches Ok(mb) && forall|i: int|
                0 <= i < 64 ==> mb.view_seq()[i] == crate::parser::text_square(s@, i)),
    {
        match crate::parser::parse_board(s) {
            Ok(b) => Ok(Self::from_board(&b)),
            Err(e) => Err(e),
        }
    }

    /// Render the board with rank digits and file letters.
    pub fn to_string(&self) -> (r: String)
        requires
            self.wf(),
        ensures
            r@ == crate::formatter::pretty_spec(self.view_seq()),
    {
        let mut pieces: Vec<Square> = Vec::new();
        let mut i: usize = 0;
        while i < 64
            invariant
                self.wf(),
                i <= 64,
                pieces@.len() == i,
                forall|k: int| 0 <= k < i ==> pieces@[k] == self.view_seq()[k],
            decreases 64 - i,
        {
            pieces.push(self.board[i]);
            i += 1;
        }
        proof {
            assert(pieces@ =~= self.view_seq());
        }
        crate::formatter::format_board(&pieces)
    }
}

impl core::str::FromStr for Mailbox {
    type Err = crate::parser::ParseError;

    fn from_str(s: &str) -> Result<Self, crate::parser::ParseError> {
        Mailbox::parse(s)
    }
}

} // verus!
