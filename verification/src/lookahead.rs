use vstd::prelude::*;
use crate::bitboard::BitBoard;
use crate::board::Board;
use crate::color::Color;
use crate::moves::Move;
use crate::negamax::{legal_spec, move_at, lemma_pos_at, INF};
use crate::piece_value::{eval_spec, evaluate, lemma_eval_bound, Eval};

verus! {

/// The plain lookahead value of a position for `p`: the leaf value at depth
/// zero, and otherwise the negated best reply of the opponent, with a flat
/// sentinel when the opponent has no playable move. Unlike the negamax
/// value it has no king-terminal cases.
pub open spec fn look_spec(b: Board, p: Color, e: Eval, d: nat) -> int
    decreases d, 2nat, 0int, 0int,
{
    if d == 0 {
        eval_spec(e, b, p)
    } else {
        -crate::negamax::max_i(-INF, lscan_from(b, p, e, d, 0))
    }
}

/// Best opponent reply value over candidate moves from squares at least `f`.
pub open spec fn lscan_from(b: Board, p: Color, e: Eval, d: nat, f: int) -> int
    decreases d, 1nat, 64 - f, 65int,
{
    if f < 0 || f >= 64 || d < 1 {
        -INF
    } else {
        crate::negamax::max_i(lscan_to(b, p, e, d, f, 0), lscan_from(b, p, e, d, f + 1))
    }
}

pub open spec fn lscan_to(b: Board, p: Color, e: Eval, d: nat, f: int, t: int) -> int
    decreases d, 1nat, 64 - f, 64 - t,
{
    if t < 0 || t >= 64 || f < 0 || f >= 64 || d < 1 {
        -INF
    } else {
        let cur = if legal_spec(b, p.opposite_spec(), move_at(b, f, t)) {
            look_spec(
                b.with_move_spec(move_at(b, f, t)),
                p.opposite_spec(),
                e,
                (d - 1) as nat,
            )
        } else {
            -INF
        };
        crate::negamax::max_i(cur, lscan_to(b, p, e, d, f, t + 1))
    }
}

/// The lookahead value never escapes the sentinels.
pub proof fn lemma_look_bound(b: Board, p: Color, e: Eval, d: nat)
    ensures
        -INF <= look_spec(b, p, e, d) <= INF,
    decreases d, 2nat, 0int, 0int,
{
    lemma_eval_bound(e, b, p);
    if d >= 1 {
        lemma_lscan_from_bound(b, p, e, d, 0);
    }
}

proof fn lemma_lscan_from_bound(b: Board, p: Color, e: Eval, d: nat, f: int)
    requires
        d >= 1,
    ensures
        -INF <= lscan_from(b, p, e, d, f) <= INF,
    decreases d, 1nat, 64 - f, 65int,
{
    if 0 <= f < 64 {
        lemma_lscan_to_bound(b, p, e, d, f, 0);
        lemma_lscan_from_bound(b, p, e, d, f + 1);
    }
}

proof fn lemma_lscan_to_bound(b: Board, p: Color, e: Eval, d: nat, f: int, t: int)
    requires
        d >= 1,
    ensures
        -INF <= lscan_to(b, p, e, d, f, t) <= INF,
    decreases d, 1nat, 64 - f, 64 - t,
{
    if 0 <= t < 64 && 0 <= f < 64 {
        if legal_spec(b, p.opposite_spec(), move_at(b, f, t)) {
            lemma_look_bound(
                b.with_move_spec(move_at(b, f, t)),
                p.opposite_spec(),
                e,
                (d - 1) as nat,
            );
        }
        lemma_lscan_to_bound(b, p, e, d, f, t + 1);
    }
}

proof fn lemma_lscan_to_char(b: Board, p: Color, e: Eval, d: nat, f: int, t: int)
    requires
        d >= 1,
        0 <= f < 64,
        0 <= t <= 64,
    ensures
        lscan_to(b, p, e, d, f, t) >= -INF,
        forall|t2: int|
            t <= t2 < 64 && legal_spec(b, p.opposite_spec(), #[trigger] move_at(b, f, t2))
                ==> lscan_to(b, p, e, d, f, t) >= look_spec(
                b.with_move_spec(move_at(b, f, t2)),
                p.opposite_spec(),
                e,
                (d - 1) as nat,
            ),
        lscan_to(b, p, e, d, f, t) == -INF || exists|t2: int|
            t <= t2 < 64 && legal_spec(b, p.opposite_spec(), #[trigger] move_at(b, f, t2))
                && lscan_to(b, p, e, d, f, t) == look_spec(
                b.with_move_spec(move_at(b, f, t2)),
                p.opposite_spec(),
                e,
                (d - 1) as nat,
            ),
    decreases 64 - t,
{
    if t < 64 {
        lemma_lscan_to_char(b, p, e, d, f, t + 1);
    }
}

proof fn lemma_lscan_from_char(b: Board, p: Color, e: Eval, d: nat, f: int)
    requires
        d >= 1,
        0 <= f <= 64,
    ensures
        lscan_from(b, p, e, d, f) >= -INF,
        forall|f2: int, t2: int|
            f <= f2 < 64 && 0 <= t2 < 64 && legal_spec(
                b,
                p.opposite_spec(),
                #[trigger] move_at(b, f2, t2),
            ) ==> lscan_from(b, p, e, d, f) >= look_spec(
                b.with_move_spec(move_at(b, f2, t2)),
                p.opposite_spec(),
                e,
                (d - 1) as nat,
            ),
        lscan_from(b, p, e, d, f) == -INF || exists|f2: int, t2: int|
            f <= f2 < 64 && 0 <= t2 < 64 && legal_spec(
                b,
                p.opposite_spec(),
                #[trigger] move_at(b, f2, t2),
            ) && lscan_from(b, p, e, d, f) == look_spec(
                b.with_move_spec(move_at(b, f2, t2)),
                p.opposite_spec(),
                e,
                (d - 1) as nat,
            ),
    decreases 64 - f,
{
    if f < 64 {
        lemma_lscan_to_char(b, p, e, d, f, 0);
        lemma_lscan_from_char(b, p, e, d, f + 1);
    }
}

/// What pins the opponent's best reply value at depth `d >= 1`.
pub proof fn lemma_look_char(b: Board, p: Color, e: Eval, d: nat)
    requires
        b.wf(),
        d >= 1,
    ensures
        ({
            let best = crate::negamax::max_i(-INF, lscan_from(b, p, e, d, 0));
            &&& look_spec(b, p, e, d) == -best
            &&& best >= -INF
            &&& (forall|m: Move|
                #[trigger] legal_spec(b, p.opposite_spec(), m) ==> best >= look_spec(
                    b.with_move_spec(m),
                    p.opposite_spec(),
                    e,
                    (d - 1) as nat,
                ))
            &&& (best == -INF || exists|m: Move|
                #[trigger] legal_spec(b, p.opposite_spec(), m) && best == look_spec(
                    b.with_move_spec(m),
                    p.opposite_spec(),
                    e,
                    (d - 1) as nat,
                ))
        }),
{
    lemma_lscan_from_char(b, p, e, d, 0);
    let best = crate::negamax::max_i(-INF, lscan_from(b, p, e, d, 0));
    assert forall|m: Move| #[trigger] legal_spec(b, p.opposite_spec(), m) implies best
        >= look_spec(b.with_move_spec(m), p.opposite_spec(), e, (d - 1) as nat) by {
        b.lemma_gen_move_ok(p.opposite_spec(), m);
        let f = m.from.index_spec();
        let t = m.to.index_spec();
        lemma_pos_at(f);
        lemma_pos_at(t);
        assert(m == move_at(b, f, t));
    }
    if best != -INF {
        let (f2, t2) = choose|f2: int, t2: int|
            0 <= f2 < 64 && 0 <= t2 < 64 && legal_spec(
                b,
                p.opposite_spec(),
                #[trigger] move_at(b, f2, t2),
            ) && lscan_from(b, p, e, d, 0) == look_spec(
                b.with_move_spec(move_at(b, f2, t2)),
                p.opposite_spec(),
                e,
                (d - 1) as nat,
            );
        assert(legal_spec(b, p.opposite_spec(), move_at(b, f2, t2)) && best == look_spec(
            b.with_move_spec(move_at(b, f2, t2)),
            p.opposite_spec(),
            e,
            (d - 1) as nat,
        ));
    }
}

/// Plain lookahead: the leaf value, or the negated best reply of the
/// opponent after `depth` plies, without king terminals. This is the value
/// the depth-configured lookahead engine maximises.
pub fn eval_with_depth(board: &BitBoard, player: Color, leaf_eval: Eval, depth: u32) -> (r: i32)
    requires
        board.wf(),
        depth <= 1000,
    ensures
        r == look_spec(board.sets, player, leaf_eval, depth as nat),
        -INF <= r <= INF,
    decreases depth,
{
    proof {
        lemma_look_bound(board.sets, player, leaf_eval, depth as nat);
    }
    if depth == 0 {
        return evaluate(leaf_eval, board, player);
    }
    proof {
        lemma_look_char(board.sets, player, leaf_eval, depth as nat);
    }
    let ghost d = depth as nat;
    let opp = player.opposite();
    let moves = board.collect_moves(opp);
    let mut best: i32 = -INF;
    let mut n: usize = 0;
    while n < moves.len()
        invariant
            board.wf(),
            1 <= depth <= 1000,
            d == depth as nat,
            opp == player.opposite_spec(),
            n <= moves@.len(),
            forall|m: Move| moves@.contains(m) <==> board.sets.gen_move_spec(opp, m),
            -INF <= best <= INF,
            forall|k: int|
                0 <= k < n && legal_spec(board.sets, opp, #[trigger] moves@[k]) ==> best
                    >= look_spec(
                    board.sets.with_move_spec(moves@[k]),
                    opp,
                    leaf_eval,
                    (d - 1) as nat,
                ),
            best == -INF || exists|k: int|
                0 <= k < n && legal_spec(board.sets, opp, #[trigger] moves@[k]) && best
                    == look_spec(
                    board.sets.with_move_spec(moves@[k]),
                    opp,
                    leaf_eval,
                    (d - 1) as nat,
                ),
        decreases moves@.len() - n,
    {
        let mv = moves[n];
        proof {
            assert(moves@.contains(mv));
            board.sets.lemma_gen_move_ok(opp, mv);
        }
        let child = BitBoard { sets: board.sets.with_move(mv) };
        if !child.is_check(opp) {
            proof {
                assert(legal_spec(board.sets, opp, mv));
                lemma_look_bound(child.sets, opp, leaf_eval, (d - 1) as nat);
            }
            let v = eval_with_depth(&child, opp, leaf_eval, depth - 1);
            if v > best {
                best = v;
                proof {
                    assert(legal_spec(board.sets, opp, moves@[n as int]) && best == look_spec(
                        board.sets.with_move_spec(moves@[n as int]),
                        opp,
                        leaf_eval,
                        (d - 1) as nat,
                    ));
                }
            }
        }
        n += 1;
    }
    proof {
        let bb = crate::negamax::max_i(-INF, lscan_from(board.sets, player, leaf_eval, d, 0));
        if best != bb {
            if bb > best {
                assert(bb != -INF);
                let m = choose|m: Move|
                    #[trigger] legal_spec(board.sets, opp, m) && bb == look_spec(
                        board.sets.with_move_spec(m),
                        opp,
                        leaf_eval,
                        (d - 1) as nat,
                    );
                assert(moves@.contains(m));
                let k = choose|k: int| 0 <= k < moves@.len() && moves@[k] == m;
                assert(legal_spec(board.sets, opp, moves@[k]));
                assert(best >= bb);
            } else {
                assert(best != -INF);
                let k = choose|k: int|
                    0 <= k < moves@.len() && legal_spec(board.sets, opp, #[trigger] moves@[k])
                        && best == look_spec(
                        board.sets.with_move_spec(moves@[k]),
                        opp,
                        leaf_eval,
                        (d - 1) as nat,
                    );
                assert(bb >= best);
            }
        }
    }
    0 - best
}

} // verus!
