use vstd::prelude::*;
use crate::bitboard::BitBoard;
use crate::board::Board;
use crate::color::Color;
use crate::moves::Move;
use crate::piece_value::{eval_spec, evaluate, lemma_eval_bound, Eval};
use crate::pos::Pos;

verus! {

/// Effectively infinite score; mate scores stay near it, ordinary leaf
/// values far below it.
pub const INF: i32 = 1_000_000_000;

/// Does `c` still have a king on `b`?
pub open spec fn has_king_spec(b: Board, c: Color) -> bool {
    exists|i: u64| i < 64 && #[trigger] b.at_spec(i) == c.king_spec()
}

/// A playable move for `p`: pseudo-legal, and not leaving `p` in check.
pub open spec fn legal_spec(b: Board, p: Color, m: Move) -> bool {
    b.gen_move_spec(p, m) && !b.with_move_spec(m).in_check_spec(p)
}

/// The on-board coordinate with row-major index `i`.
pub open spec fn pos_at(i: int) -> Pos {
    Pos(((i / 8) * 16 + (i % 8)) as u8)
}

pub proof fn lemma_pos_at(i: int)
    requires
        0 <= i < 64,
    ensures
        pos_at(i).valid(),
        pos_at(i).index_spec() == i,
        forall|p: Pos| p.valid() && p.index_spec() == i ==> p == pos_at(i),
{
    vstd::arithmetic::div_mod::lemma_fundamental_div_mod(i, 8);
    let raw = (i / 8) * 16 + (i % 8);
    vstd::arithmetic::div_mod::lemma_fundamental_div_mod_converse(raw, 16, i / 8, i % 8);
    assert forall|p: Pos| p.valid() && p.index_spec() == i implies p == pos_at(i) by {
        crate::pos::lemma_pos_index_inj(p, pos_at(i));
    }
}

/// The candidate move from square `f` to square `t`, carrying whatever
/// piece stands on `f`.
pub open spec fn move_at(b: Board, f: int, t: int) -> Move {
    Move { piece: b.at_spec(f as u64), from: pos_at(f), to: pos_at(t) }
}

pub open spec fn max_i(a: int, b: int) -> int {
    if a >= b {
        a
    } else {
        b
    }
}

/// The negamax value of a position for the side to move: the leaf value at
/// depth zero, a depth-adjusted mate sentinel when a king is gone (or no
/// playable move remains), and otherwise the maximum over all playable
/// moves of the negated value of the position after the move.
pub open spec fn nega_spec(b: Board, p: Color, e: Eval, d: nat) -> int
    decreases d, 2nat, 0int, 0int,
{
    if !has_king_spec(b, p) {
        -INF - d
    } else if !has_king_spec(b, p.opposite_spec()) {
        INF - d
    } else if d == 0 {
        eval_spec(e, b, p)
    } else {
        max_i(-INF - d, scan_from(b, p, e, d, 0))
    }
}

/// Best value over candidate moves whose origin square is at least `f`.
pub open spec fn scan_from(b: Board, p: Color, e: Eval, d: nat, f: int) -> int
    decreases d, 1nat, 64 - f, 65int,
{
    if f < 0 || f >= 64 || d < 1 {
        -INF - d
    } else {
        max_i(scan_to(b, p, e, d, f, 0), scan_from(b, p, e, d, f + 1))
    }
}

/// Best value over candidate moves from square `f` to squares at least `t`.
pub open spec fn scan_to(b: Board, p: Color, e: Eval, d: nat, f: int, t: int) -> int
    decreases d, 1nat, 64 - f, 64 - t,
{
    if t < 0 || t >= 64 || f < 0 || f >= 64 || d < 1 {
        -INF - d
    } else {
        let cur = if legal_spec(b, p, move_at(b, f, t)) {
            -nega_spec(b.with_move_spec(move_at(b, f, t)), p.opposite_spec(), e, (d - 1) as nat)
        } else {
            -INF - d
        };
        max_i(cur, scan_to(b, p, e, d, f, t + 1))
    }
}

/// The negamax value stays within the mate sentinels.
pub proof fn lemma_nega_bound(b: Board, p: Color, e: Eval, d: nat)
    ensures
        -INF - d <= nega_spec(b, p, e, d) <= INF + d,
    decreases d, 2nat, 0int, 0int,
{
    lemma_eval_bound(e, b, p);
    if has_king_spec(b, p) && has_king_spec(b, p.opposite_spec()) && d >= 1 {
        lemma_scan_from_bound(b, p, e, d, 0);
    }
}

proof fn lemma_scan_from_bound(b: Board, p: Color, e: Eval, d: nat, f: int)
    requires
        d >= 1,
    ensures
        -INF - d <= scan_from(b, p, e, d, f) <= INF + d - 1,
    decreases d, 1nat, 64 - f, 65int,
{
    if 0 <= f < 64 {
        lemma_scan_to_bound(b, p, e, d, f, 0);
        lemma_scan_from_bound(b, p, e, d, f + 1);
    }
}

proof fn lemma_scan_to_bound(b: Board, p: Color, e: Eval, d: nat, f: int, t: int)
    requires
        d >= 1,
    ensures
        -INF - d <= scan_to(b, p, e, d, f, t) <= INF + d - 1,
    decreases d, 1nat, 64 - f, 64 - t,
{
    if 0 <= t < 64 && 0 <= f < 64 {
        if legal_spec(b, p, move_at(b, f, t)) {
            lemma_nega_bound(
                b.with_move_spec(move_at(b, f, t)),
                p.opposite_spec(),
                e,
                (d - 1) as nat,
            );
        }
        lemma_scan_to_bound(b, p, e, d, f, t + 1);
    }
}

proof fn lemma_scan_to_char(b: Board, p: Color, e: Eval, d: nat, f: int, t: int)
    requires
        d >= 1,
        0 <= f < 64,
        0 <= t <= 64,
    ensures
        scan_to(b, p, e, d, f, t) >= -INF - d,
        forall|t2: int|
            t <= t2 < 64 && legal_spec(b, p, #[trigger] move_at(b, f, t2)) ==> scan_to(
                b,
                p,
                e,
                d,
                f,
                t,
            ) >= -nega_spec(b.with_move_spec(move_at(b, f, t2)), p.opposite_spec(), e, (
            d - 1) as nat),
        scan_to(b, p, e, d, f, t) == -INF - d || exists|t2: int|
            t <= t2 < 64 && legal_spec(b, p, #[trigger] move_at(b, f, t2)) && scan_to(
                b,
                p,
                e,
                d,
                f,
                t,
            ) == -nega_spec(b.with_move_spec(move_at(b, f, t2)), p.opposite_spec(), e, (
            d - 1) as nat),
    decreases 64 - t,
{
    if t < 64 {
        lemma_scan_to_char(b, p, e, d, f, t + 1);
    }
}

proof fn lemma_scan_from_char(b: Board, p: Color, e: Eval, d: nat, f: int)
    requires
        d >= 1,
        0 <= f <= 64,
    ensures
        scan_from(b, p, e, d, f) >= -INF - d,
        forall|f2: int, t2: int|
            f <= f2 < 64 && 0 <= t2 < 64 && legal_spec(b, p, #[trigger] move_at(b, f2, t2))
                ==> scan_from(b, p, e, d, f) >= -nega_spec(
                b.with_move_spec(move_at(b, f2, t2)),
                p.opposite_spec(),
                e,
                (d - 1) as nat,
            ),
        scan_from(b, p, e, d, f) == -INF - d || exists|f2: int, t2: int|
            f <= f2 < 64 && 0 <= t2 < 64 && legal_spec(b, p, #[trigger] move_at(b, f2, t2))
                && scan_from(b, p, e, d, f) == -nega_spec(
                b.with_move_spec(move_at(b, f2, t2)),
                p.opposite_spec(),
                e,
                (d - 1) as nat,
            ),
    decreases 64 - f,
{
    if f < 64 {
        lemma_scan_to_char(b, p, e, d, f, 0);
        lemma_scan_from_char(b, p, e, d, f + 1);
    }
}

/// What pins the negamax value at an interior node: it is at least the
/// stalemate sentinel, at least the negated child value of every playable
/// move, and is either the sentinel or attained by some playable move.
pub proof fn lemma_nega_char(b: Board, p: Color, e: Eval, d: nat)
    requires
        b.wf(),
        has_king_spec(b, p),
        has_king_spec(b, p.opposite_spec()),
        d >= 1,
    ensures
        nega_spec(b, p, e, d) >= -INF - d,
        forall|m: Move|
            #[trigger] legal_spec(b, p, m) ==> nega_spec(b, p, e, d) >= -nega_spec(
                b.with_move_spec(m),
                p.opposite_spec(),
                e,
                (d - 1) as nat,
            ),
        nega_spec(b, p, e, d) == -INF - d || exists|m: Move|
            #[trigger] legal_spec(b, p, m) && nega_spec(b, p, e, d) == -nega_spec(
                b.with_move_spec(m),
                p.opposite_spec(),
                e,
                (d - 1) as nat,
            ),
{
    lemma_scan_from_char(b, p, e, d, 0);
    let v = nega_spec(b, p, e, d);
    assert forall|m: Move| #[trigger] legal_spec(b, p, m) implies v >= -nega_spec(
        b.with_move_spec(m),
        p.opposite_spec(),
        e,
        (d - 1) as nat,
    ) by {
        b.lemma_gen_move_ok(p, m);
        let f = m.from.index_spec();
        let t = m.to.index_spec();
        lemma_pos_at(f);
        lemma_pos_at(t);
        assert(m == move_at(b, f, t));
    }
    if v != -INF - d {
        assert(scan_from(b, p, e, d, 0) == v);
        let (f2, t2) = choose|f2: int, t2: int|
            0 <= f2 < 64 && 0 <= t2 < 64 && legal_spec(b, p, #[trigger] move_at(b, f2, t2))
                && scan_from(b, p, e, d, 0) == -nega_spec(
                b.with_move_spec(move_at(b, f2, t2)),
                p.opposite_spec(),
                e,
                (d - 1) as nat,
            );
        assert(legal_spec(b, p, move_at(b, f2, t2)) && v == -nega_spec(
            b.with_move_spec(move_at(b, f2, t2)),
            p.opposite_spec(),
            e,
            (d - 1) as nat,
        ));
    }
}

/// Depth-first negamax search: the score of the position for `player`,
/// looking `depth` plies ahead with `leaf_eval` at the horizon.
pub fn negamax(board: &BitBoard, player: Color, leaf_eval: Eval, depth: u32) -> (r: i32)
    requires
        board.wf(),
        depth <= 1000,
    ensures
        r == nega_spec(board.sets, player, leaf_eval, depth as nat),
        -INF - depth <= r <= INF + depth,
    decreases depth,
{
    proof {
        lemma_nega_bound(board.sets, player, leaf_eval, depth as nat);
    }
    if !board.has_king(player) {
        return -INF - (depth as i32);
    }
    if !board.has_king(player.opposite()) {
        return INF - (depth as i32);
    }
    if depth == 0 {
        return evaluate(leaf_eval, board, player);
    }
    proof {
        lemma_nega_char(board.sets, player, leaf_eval, depth as nat);
    }
    let ghost d = depth as nat;
    let ghost opp = player.opposite_spec();
    let moves = board.collect_moves(player);
    let mut value: i32 = -INF - (depth as i32);
    let mut n: usize = 0;
    while n < moves.len()
        invariant
            board.wf(),
            1 <= depth <= 1000,
            d == depth as nat,
            opp == player.opposite_spec(),
            has_king_spec(board.sets, player),
            has_king_spec(board.sets, player.opposite_spec()),
            n <= moves@.len(),
            forall|m: Move| moves@.contains(m) <==> board.sets.gen_move_spec(player, m),
            -INF - d <= value <= INF + d,
            forall|k: int|
                0 <= k < n && legal_spec(board.sets, player, #[trigger] moves@[k]) ==> value
                    >= -nega_spec(
                    board.sets.with_move_spec(moves@[k]),
                    opp,
                    leaf_eval,
                    (d - 1) as nat,
                ),
            value == -INF - d || exists|k: int|
                0 <= k < n && legal_spec(board.sets, player, #[trigger] moves@[k]) && value
                    == -nega_spec(
                    board.sets.with_move_spec(moves@[k]),
                    opp,
                    leaf_eval,
                    (d - 1) as nat,
                ),
        decreases moves@.len() - n,
    {
        let mv = moves[n];
        proof {
            assert(moves@.contains(mv));
            board.sets.lemma_gen_move_ok(player, mv);
            board.sets.lemma_with_move_spec(mv);
        }
        let child = BitBoard { sets: board.sets.with_move(mv) };
        if !child.is_check(player) {
            proof {
                assert(legal_spec(board.sets, player, mv));
                lemma_nega_bound(child.sets, opp, leaf_eval, (d - 1) as nat);
            }
            let v = -negamax(&child, player.opposite(), leaf_eval, depth - 1);
            if v >= value {
                value = v;
                proof {
                    assert(legal_spec(board.sets, player, moves@[n as int]) && value
                        == -nega_spec(
                        board.sets.with_move_spec(moves@[n as int]),
                        opp,
                        leaf_eval,
                        (d - 1) as nat,
                    ));
                }
            }
        }
        n += 1;
    }
    proof {
        let v = nega_spec(board.sets, player, leaf_eval, d);
        if value != v {
            if v > value {
                assert(v != -INF - d);
                let m = choose|m: Move|
                    #[trigger] legal_spec(board.sets, player, m) && v == -nega_spec(
                        board.sets.with_move_spec(m),
                        opp,
                        leaf_eval,
                        (d - 1) as nat,
                    );
                assert(moves@.contains(m));
                let k = choose|k: int| 0 <= k < moves@.len() && moves@[k] == m;
                assert(legal_spec(board.sets, player, moves@[k]));
                assert(value >= v);
            } else {
                assert(value != -INF - d);
                let k = choose|k: int|
                    0 <= k < moves@.len() && legal_spec(board.sets, player, #[trigger] moves@[k])
                        && value == -nega_spec(
                        board.sets.with_move_spec(moves@[k]),
                        opp,
                        leaf_eval,
                        (d - 1) as nat,
                    );
                assert(v >= value);
            }
        }
    }
    value
}

} // verus!
