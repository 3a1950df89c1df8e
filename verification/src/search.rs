use vstd::prelude::*;
use crate::bitboard::BitBoard;
use crate::color::Color;
use crate::moves::Move;
use crate::negamax::legal_spec;
use crate::piece_value::{eval_spec, evaluate, Eval};
use crate::pick_move::max_pref;

verus! {

/// From move/score pairs, the move with the highest score, ties broken at
/// random; `None` when the list is empty.
pub fn pick_best_move(rng: &mut rand::rngs::StdRng, mv_value: Vec<(Move, i32)>) -> (r: Option<
    Move,
>)
    ensures
        r is None <==> mv_value@.len() == 0,
        r matches Some(m) ==> exists|k: int|
            0 <= k < mv_value@.len() && mv_value@[k] == (m, max_pref(
                mv_value@,
                mv_value@.len() as int,
            ) as i32),
{
    if mv_value.len() == 0 {
        return None;
    }
    crate::pick_move::pick_best_with_tiebreak(rng, &mv_value)
}

/// Every playable move of `player` with the score of its position: the
/// root evaluator run for the opponent on the position after the move, and
/// negated.
#[verifier::rlimit(80)]
#[verifier::spinoff_prover]
pub fn evaluate_moves(board: &BitBoard, player: Color, root_eval: Eval) -> (r: Vec<(Move, i32)>)
    requires
        board.wf(),
    ensures
        forall|k: int|
            0 <= k < r@.len() ==> legal_spec(board.sets, player, (#[trigger] r@[k]).0)
                && r@[k].1 as int == -eval_spec(
                root_eval,
                board.sets.with_move_spec(r@[k].0),
                player.opposite_spec(),
            ),
        forall|m: Move|
            #[trigger] legal_spec(board.sets, player, m) ==> exists|k: int|
                0 <= k < r@.len() && (#[trigger] r@[k]).0 == m,
        forall|k1: int, k2: int| 0 <= k1 < k2 < r@.len() ==> r@[k1].0 != r@[k2].0,
{
    let moves = board.collect_moves(player);
    let mut r: Vec<(Move, i32)> = Vec::new();
    let mut n: usize = 0;
    while n < moves.len()
        invariant
            board.wf(),
            n <= moves@.len(),
            forall|m: Move| moves@.contains(m) <==> board.sets.gen_move_spec(player, m),
            forall|k1: int, k2: int| 0 <= k1 < k2 < moves@.len() ==> moves@[k1] != moves@[k2],
            crate::pick_move::drawn_from(r@, moves@, n as int),
            forall|k1: int, k2: int| 0 <= k1 < k2 < r@.len() ==> r@[k1].0 != r@[k2].0,
            forall|k: int|
                0 <= k < r@.len() ==> legal_spec(board.sets, player, (#[trigger] r@[k]).0)
                    && r@[k].1 as int == -eval_spec(
                    root_eval,
                    board.sets.with_move_spec(r@[k].0),
                    player.opposite_spec(),
                ),
            forall|k2: int|
                0 <= k2 < n && legal_spec(board.sets, player, #[trigger] moves@[k2]) ==> exists|
                    k3: int,
                | 0 <= k3 < r@.len() && (#[trigger] r@[k3]).0 == moves@[k2],
        decreases moves@.len() - n,
    {
        let mv = moves[n];
        proof {
            assert(moves@.contains(mv));
            board.sets.lemma_gen_move_ok(player, mv);
        }
        let child = BitBoard { sets: board.sets.with_move(mv) };
        if !child.is_check(player) {
            let v = evaluate(root_eval, &child, player.opposite());
            let ghost pre = r@;
            r.push((mv, 0 - v));
            proof {
                assert(r@[r@.len() - 1] == (mv, (0 - v) as i32));
                assert forall|k3: int| 0 <= k3 < pre.len() implies r@[k3] == pre[k3] by {}
                crate::pick_move::lemma_scored_push(pre, (mv, (0 - v) as i32), moves@, n as int);
                assert(r@ == pre.push((mv, (0 - v) as i32)));
            }
        }
        else {
            proof {
                crate::pick_move::lemma_drawn_from_widen(r@, moves@, n as int, n as int + 1);
            }
        }
        n += 1;
    }
    proof {
        assert forall|m: Move| #[trigger] legal_spec(board.sets, player, m) implies exists|
            k: int,
        |
            0 <= k < r@.len() && (#[trigger] r@[k]).0 == m by {
            assert(moves@.contains(m));
            let k2 = choose|k2: int| 0 <= k2 < moves@.len() && moves@[k2] == m;
            assert(legal_spec(board.sets, player, moves@[k2]));
        }
    }
    r
}

} // verus!
