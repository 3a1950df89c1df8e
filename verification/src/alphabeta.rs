use vstd::prelude::*;
use crate::bitboard::BitBoard;
use crate::color::Color;
use crate::moves::Move;
use crate::negamax::{has_king_spec, legal_spec, lemma_nega_bound, lemma_nega_char, nega_spec, INF};
use crate::piece_value::{evaluate, Eval};

verus! {

/// Sort move/score pairs by descending score. Keeps exactly the same set of
/// pairs.
fn sort_pairs(v: &mut Vec<(Move, i32)>)
    ensures
        final(v)@.len() == old(v)@.len(),
        forall|pr: (Move, i32)| final(v)@.contains(pr) <==> old(v)@.contains(pr),
        forall|k1: int, k2: int| 0 <= k1 < k2 < final(v)@.len() ==> final(v)@[k1].1 >= final(v)@[k2].1,
{
    let n = v.len();
    let mut i: usize = 0;
    while i < n
        invariant
            n == v@.len(),
            i <= n,
            v@.len() == old(v)@.len(),
            forall|pr: (Move, i32)| v@.contains(pr) <==> old(v)@.contains(pr),
            forall|k1: int, k2: int| 0 <= k1 < k2 < i ==> v@[k1].1 >= v@[k2].1,
            forall|k1: int, k2: int| 0 <= k1 < i && i <= k2 < n ==> v@[k1].1 >= v@[k2].1,
        decreases n - i,
    {
        // find the largest remaining score
        let mut jmax: usize = i;
        let mut j: usize = i + 1;
        while j < n
            invariant
                n == v@.len(),
                i <= jmax < n,
                i < j <= n,
                forall|k: int| i <= k < j ==> v@[jmax as int].1 >= v@[k].1,
            decreases n - j,
        {
            if v[j].1 > v[jmax].1 {
                jmax = j;
            }
            j += 1;
        }
        let ghost before = v@;
        let a = v[i];
        let b = v[jmax];
        v[i] = b;
        v[jmax] = a;
        proof {
            assert(v@ =~= before.update(i as int, b).update(jmax as int, a));
            assert forall|pr: (Move, i32)| v@.contains(pr) <==> before.contains(pr) by {
                if v@.contains(pr) {
                    let k = choose|k: int| 0 <= k < v@.len() && v@[k] == pr;
                    if k == i {
                        assert(before[jmax as int] == pr);
                    } else if k == jmax {
                        assert(before[i as int] == pr);
                    } else {
                        assert(before[k] == pr);
                    }
                    assert(before.contains(pr));
                }
                if before.contains(pr) {
                    let k = choose|k: int| 0 <= k < before.len() && before[k] == pr;
                    if k == i {
                        assert(v@[jmax as int] == pr);
                    } else if k == jmax {
                        assert(v@[i as int] == pr);
                    } else {
                        assert(v@[k] == pr);
                    }
                    assert(v@.contains(pr));
                }
            }
        }
        i += 1;
    }
}

/// Alpha-beta search below the root, in fail-soft form. The result `r.1`
/// relates to the plain negamax value `v` of the position as the window
/// allows: exact when it lands strictly inside `(alpha, beta)`, an upper
/// bound on `v` when it fails low, a lower bound when it fails high. `r.0`
/// is a playable move attaining the value, when one was found.
pub fn alphabeta_(board: &BitBoard, player: Color, leaf_eval: Eval, alpha: i32, beta: i32, depth: u32) -> (r: (
    Option<Move>,
    i32,
))
    requires
        board.wf(),
        depth <= 1000,
        alpha < beta,
        -INF - 1001 <= alpha,
        beta <= INF + 1001,
    ensures
        ({
            let v = nega_spec(board.sets, player, leaf_eval, depth as nat);
            &&& -INF - depth <= r.1 <= INF + depth
            &&& (r.1 <= alpha ==> v <= r.1)
            &&& (r.1 >= beta ==> v >= r.1)
            &&& (alpha < r.1 < beta ==> v == r.1)
            &&& (!has_king_spec(board.sets, player) ==> r.0 is None && r.1 == -INF - depth)
            &&& (has_king_spec(board.sets, player) && !has_king_spec(
                board.sets,
                player.opposite_spec(),
            ) ==> r.0 is None && r.1 == INF - depth)
            &&& (match r.0 {
                Some(m) => legal_spec(board.sets, player, m),
                None => true,
            })
            &&& (depth == 0 ==> r.0 is None)
            &&& (has_king_spec(board.sets, player) && has_king_spec(
                board.sets,
                player.opposite_spec(),
            ) && depth >= 1 ==> (r.0 is Some <==> exists|m: Move|
                legal_spec(board.sets, player, m)))
            &&& (match r.0 {
                Some(m) => (alpha < r.1 < beta ==> r.1 == -nega_spec(
                    board.sets.with_move_spec(m),
                    player.opposite_spec(),
                    leaf_eval,
                    (depth - 1) as nat,
                )) && (r.1 >= beta ==> -nega_spec(
                    board.sets.with_move_spec(m),
                    player.opposite_spec(),
                    leaf_eval,
                    (depth - 1) as nat,
                ) >= r.1),
                None => true,
            })
        }),
    decreases depth,
{
    proof {
        lemma_nega_bound(board.sets, player, leaf_eval, depth as nat);
    }
    // must stop here so that the search would not trade a king for a king
    if !board.has_king(player) {
        return (None, -INF - (depth as i32));
    }
    if !board.has_king(player.opposite()) {
        return (None, INF - (depth as i32));  // offset pushes for mate in fewer moves
    }
    if depth == 0 {
        return (None, evaluate(leaf_eval, board, player));
    }
    proof {
        lemma_nega_char(board.sets, player, leaf_eval, depth as nat);
    }
    let ghost d = depth as nat;
    let ghost opp = player.opposite_spec();
    let ghost v = nega_spec(board.sets, player, leaf_eval, d);

    let moves = board.collect_moves(player);
    // pre-score each move with the leaf value of its position; sorting the
    // most promising first pays for itself only two plies above the leaves
    let mut pairs: Vec<(Move, i32)> = Vec::new();
    let mut n: usize = 0;
    while n < moves.len()
        invariant
            board.wf(),
            depth >= 1,
            n <= moves@.len(),
            forall|m: Move| moves@.contains(m) <==> board.sets.gen_move_spec(player, m),
            pairs@.len() == n,
            forall|k: int| 0 <= k < n ==> (#[trigger] pairs@[k]).0 == moves@[k],
        decreases moves@.len() - n,
    {
        let mv = moves[n];
        proof {
            assert(moves@.contains(mv));
            board.sets.lemma_gen_move_ok(player, mv);
        }
        let score = if depth > 1 {
            let child = BitBoard { sets: board.sets.with_move(mv) };
            evaluate(leaf_eval, &child, player)
        } else {
            0
        };
        pairs.push((mv, score));
        n += 1;
    }
    proof {
        assert forall|m: Move| board.sets.gen_move_spec(player, m) implies exists|k: int|
            0 <= k < pairs@.len() && (#[trigger] pairs@[k]).0 == m by {
            assert(moves@.contains(m));
            let k = choose|k: int| 0 <= k < moves@.len() && moves@[k] == m;
            assert(pairs@[k].0 == m);
        }
    }
    if depth > 1 {
        let ghost unsorted = pairs@;
        sort_pairs(&mut pairs);
        proof {
            assert forall|k: int| 0 <= k < pairs@.len() implies board.sets.gen_move_spec(
                player,
                (#[trigger] pairs@[k]).0,
            ) by {
                assert(pairs@.contains(pairs@[k]));
                assert(unsorted.contains(pairs@[k]));
                let k2 = choose|k2: int| 0 <= k2 < unsorted.len() && unsorted[k2] == pairs@[k];
                assert(moves@.contains(unsorted[k2].0));
            }
            assert forall|m: Move| board.sets.gen_move_spec(player, m) implies exists|k: int|
                0 <= k < pairs@.len() && (#[trigger] pairs@[k]).0 == m by {
                assert(moves@.contains(m));
                let k2 = choose|k2: int| 0 <= k2 < moves@.len() && moves@[k2] == m;
                assert(unsorted[k2].0 == m);
                assert(unsorted.contains(unsorted[k2]));
                assert(pairs@.contains(unsorted[k2]));
                let k3 = choose|k3: int| 0 <= k3 < pairs@.len() && pairs@[k3] == unsorted[k2];
                assert(pairs@[k3].0 == m);
            }
        }
    } else {
        proof {
            assert forall|k: int| 0 <= k < pairs@.len() implies board.sets.gen_move_spec(
                player,
                (#[trigger] pairs@[k]).0,
            ) by {
                assert(moves@.contains(moves@[k]));
            }
        }
    }

    let mut best: i32 = -INF - (depth as i32);
    let mut best_move: Option<Move> = None;
    let mut a: i32 = alpha;
    let ghost mut seen = false;
    let mut h: usize = 0;
    while h < pairs.len() && a < beta
        invariant
            board.wf(),
            1 <= depth <= 1000,
            d == depth as nat,
            opp == player.opposite_spec(),
            v == nega_spec(board.sets, player, leaf_eval, d),
            alpha < beta,
            -INF - 1001 <= alpha,
            beta <= INF + 1001,
            has_king_spec(board.sets, player),
            has_king_spec(board.sets, opp),
            h <= pairs@.len(),
            forall|k: int|
                0 <= k < pairs@.len() ==> board.sets.gen_move_spec(
                    player,
                    (#[trigger] pairs@[k]).0,
                ),
            forall|m: Move|
                board.sets.gen_move_spec(player, m) ==> exists|k: int|
                    0 <= k < pairs@.len() && (#[trigger] pairs@[k]).0 == m,
            -INF - d <= best <= INF + d,
            alpha <= a,
            !seen ==> a == alpha && best == -INF - d && best_move is None,
            seen ==> a == crate::negamax::max_i(alpha as int, best as int),
            a < beta ==> forall|k: int|
                0 <= k < h && legal_spec(board.sets, player, (#[trigger] pairs@[k]).0)
                    ==> -nega_spec(
                    board.sets.with_move_spec(pairs@[k].0),
                    opp,
                    leaf_eval,
                    (d - 1) as nat,
                ) <= best,
            best > alpha && best > -INF - d ==> exists|k: int|
                0 <= k < h && legal_spec(board.sets, player, (#[trigger] pairs@[k]).0)
                    && -nega_spec(
                    board.sets.with_move_spec(pairs@[k].0),
                    opp,
                    leaf_eval,
                    (d - 1) as nat,
                ) >= best,
            match best_move {
                Some(m) => legal_spec(board.sets, player, m) && (a >= beta ==> -nega_spec(
                    board.sets.with_move_spec(m),
                    opp,
                    leaf_eval,
                    (d - 1) as nat,
                ) >= best) && (a < beta && best > alpha ==> -nega_spec(
                    board.sets.with_move_spec(m),
                    opp,
                    leaf_eval,
                    (d - 1) as nat,
                ) == best) && (a < beta && best <= alpha ==> -nega_spec(
                    board.sets.with_move_spec(m),
                    opp,
                    leaf_eval,
                    (d - 1) as nat,
                ) <= best),
                None => a == alpha && best == -INF - d && forall|k: int|
                    0 <= k < h ==> !legal_spec(board.sets, player, (#[trigger] pairs@[k]).0),
            },
        decreases pairs@.len() - h,
    {
        let mv = pairs[h].0;
        proof {
            board.sets.lemma_gen_move_ok(player, mv);
            board.sets.lemma_with_move_spec(mv);
        }
        let child = BitBoard { sets: board.sets.with_move(mv) };
        if !child.is_check(player) {
            proof {
                assert(legal_spec(board.sets, player, mv));
                lemma_nega_bound(child.sets, opp, leaf_eval, (d - 1) as nat);
            }
            let ghost w = -nega_spec(child.sets, opp, leaf_eval, (d - 1) as nat);
            let sub = alphabeta_(&child, player.opposite(), leaf_eval, 0 - beta, 0 - a, depth - 1);
            let value = 0 - sub.1;
            proof {
                if value >= beta {
                    assert(w >= value);
                }
                if value <= a {
                    assert(w <= value);
                }
                if a < value < beta {
                    assert(w == value);
                }
            }
            let ghost a_pre = a;
            let ghost best_pre = best;
            if value > best {
                best = value;
                best_move = Some(mv);
                proof {
                    assert(pairs@[h as int].0 == mv);
                }
            }
            if value > a {
                a = value;
            }
            proof {
                seen = true;
                if value > best_pre {
                    // the recorded move's true value matches the recorded score
                    if value >= beta {
                        assert(w >= value);
                    } else if value > a_pre {
                        assert(w == value);
                        assert(best > alpha);
                    } else {
                        assert(w <= value);
                        assert(value <= alpha);
                    }
                }
            }
        }
        h += 1;
    }
    proof {
        let r1 = best;
        if has_king_spec(board.sets, player) && has_king_spec(board.sets, opp) {
            match best_move {
                Some(m) => {
                    assert(exists|m2: Move| legal_spec(board.sets, player, m2));
                },
                None => {
                    assert(a == alpha);
                    assert(h == pairs@.len());
                    if exists|m: Move| legal_spec(board.sets, player, m) {
                        let m = choose|m: Move| legal_spec(board.sets, player, m);
                        let k = choose|k: int|
                            0 <= k < pairs@.len() && (#[trigger] pairs@[k]).0 == m;
                        assert(!legal_spec(board.sets, player, pairs@[k].0));
                        assert(false);
                    }
                },
            }
        }
        if a >= beta {
            // fail high: some playable move already guarantees at least beta
            assert(a == best);
            if best > -INF - d {
                let k = choose|k: int|
                    0 <= k < h && legal_spec(board.sets, player, (#[trigger] pairs@[k]).0)
                        && -nega_spec(
                        board.sets.with_move_spec(pairs@[k].0),
                        opp,
                        leaf_eval,
                        (d - 1) as nat,
                    ) >= best;
                assert(v >= best);
            } else {
                assert(v >= best);
            }
        } else {
            // every playable move was examined and is dominated by `best`
            assert(h == pairs@.len());
            assert forall|m: Move| #[trigger] legal_spec(board.sets, player, m) implies -nega_spec(
                board.sets.with_move_spec(m),
                opp,
                leaf_eval,
                (d - 1) as nat,
            ) <= best by {
                let k = choose|k: int| 0 <= k < pairs@.len() && (#[trigger] pairs@[k]).0 == m;
                assert(legal_spec(board.sets, player, pairs@[k].0));
            }
            if v > best {
                assert(v != -INF - d);
                let m = choose|m: Move|
                    #[trigger] legal_spec(board.sets, player, m) && v == -nega_spec(
                        board.sets.with_move_spec(m),
                        opp,
                        leaf_eval,
                        (d - 1) as nat,
                    );
                assert(false);
            }
            if best > alpha && best > -INF - d {
                // the maximum was attained by some playable move
                let k = choose|k: int|
                    0 <= k < h && legal_spec(board.sets, player, (#[trigger] pairs@[k]).0)
                        && -nega_spec(
                        board.sets.with_move_spec(pairs@[k].0),
                        opp,
                        leaf_eval,
                        (d - 1) as nat,
                    ) >= best;
                assert(v >= best);
            }
            if best == -INF - d {
                assert(v >= best);
            }
        }
    }
    (best_move, best)
}

/// The alpha-beta value of the position: identical to the plain negamax
/// value, computed with pruning inside a window wide enough to be exact.
pub fn alphabeta(board: &BitBoard, player: Color, leaf_eval: Eval, depth: u32) -> (r: i32)
    requires
        board.wf(),
        depth <= 1000,
    ensures
        r == nega_spec(board.sets, player, leaf_eval, depth as nat),
{
    let alpha = -INF - (depth as i32) - 1;
    let beta = INF + (depth as i32) + 1;
    let rr = alphabeta_(board, player, leaf_eval, alpha, beta, depth);
    proof {
        lemma_nega_bound(board.sets, player, leaf_eval, depth as nat);
    }
    rr.1
}

} // verus!
