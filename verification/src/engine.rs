use vstd::prelude::*;
use crate::bitboard::BitBoard;
use crate::board::Board;
use crate::color::Color;
use crate::lookahead::{eval_with_depth, look_spec};
use crate::moves::Move;
use crate::negamax::legal_spec;
use crate::piece_value::{eval_spec, evaluate, Eval};

verus! {

/// The uniform engine capability: score every playable move of `player` on
/// `board`. A caller then proposes the best-scored move, or resigns when
/// the list is empty.
pub trait Engine {
    /// The value this engine assigns to the position after a move, for the
    /// side that played into it.
    spec fn value_spec(&self, b: Board, c: Color) -> int;

    fn eval_moves(&self, board: &BitBoard, player: Color) -> (r: Vec<(Move, i32)>)
        requires
            board.wf(),
        ensures
            forall|k: int|
                0 <= k < r@.len() ==> legal_spec(board.sets, player, (#[trigger] r@[k]).0)
                    && r@[k].1 as int == self.value_spec(
                    board.sets.with_move_spec(r@[k].0),
                    player,
                ),
            forall|m: Move|
                #[trigger] legal_spec(board.sets, player, m) ==> exists|k: int|
                    0 <= k < r@.len() && (#[trigger] r@[k]).0 == m,
            forall|k1: int, k2: int| 0 <= k1 < k2 < r@.len() ==> r@[k1].0 != r@[k2].0,
    ;
}

/// Scores every playable move at zero: random play.
pub struct Valid();

/// Scores each playable move with a leaf value of the resulting position.
pub struct Greedy(pub Eval);

/// Scores each playable move with a fixed-depth lookahead value of the
/// resulting position.
pub struct NegaMax {
    pub depth: u32,
    pub leaf_value: Eval,
}

impl NegaMax {
    pub fn new(depth: u32, leaf_value: Eval) -> (r: Self)
        requires
            depth <= 1000,
        ensures
            r.depth == depth,
            r.leaf_value == leaf_value,
    {
        NegaMax { depth, leaf_value }
    }
}

/// The common scoring loop: each playable move paired with a score
/// computed from the position after it.
#[verifier::rlimit(80)]
#[verifier::spinoff_prover]
fn scored_moves(board: &BitBoard, player: Color, value: Eval, depth: Option<u32>) -> (r: Vec<(
    Move,
    i32,
)>)
    requires
        board.wf(),
        depth matches Some(d) ==> d <= 1000,
    ensures
        forall|k: int|
            0 <= k < r@.len() ==> legal_spec(board.sets, player, (#[trigger] r@[k]).0)
                && r@[k].1 as int == (match depth {
                Some(d) => look_spec(board.sets.with_move_spec(r@[k].0), player, value, d as nat),
                None => eval_spec(value, board.sets.with_move_spec(r@[k].0), player),
            }),
        forall|m: Move|
            #[trigger] legal_spec(board.sets, player, m) ==> exists|k: int|
                0 <= k < r@.len() && (#[trigger] r@[k]).0 == m,
        forall|k1: int, k2: int| 0 <= k1 < k2 < r@.len() ==> r@[k1].0 != r@[k2].0,
{
    let moves = board.collect_moves(player);
    let mut r: Vec<(Move, i32)> = Vec::new();
    let mut n: usize = 0;
    while n < moves.len()
        invariant
            board.wf(),
            depth matches Some(d) ==> d <= 1000,
            n <= moves@.len(),
            forall|m: Move| moves@.contains(m) <==> board.sets.gen_move_spec(player, m),
            forall|k1: int, k2: int| 0 <= k1 < k2 < moves@.len() ==> moves@[k1] != moves@[k2],
            crate::pick_move::drawn_from(r@, moves@, n as int),
            forall|k1: int, k2: int| 0 <= k1 < k2 < r@.len() ==> r@[k1].0 != r@[k2].0,
            forall|k: int|
                0 <= k < r@.len() ==> legal_spec(board.sets, player, (#[trigger] r@[k]).0)
                    && r@[k].1 as int == (match depth {
                    Some(d) => look_spec(
                        board.sets.with_move_spec(r@[k].0),
                        player,
                        value,
                        d as nat,
                    ),
                    None => eval_spec(value, board.sets.with_move_spec(r@[k].0), player),
                }),
            forall|k2: int|
                0 <= k2 < n && legal_spec(board.sets, player, #[trigger] moves@[k2]) ==> exists|
                    k3: int,
                | 0 <= k3 < r@.len() && (#[trigger] r@[k3]).0 == moves@[k2],
        decreases moves@.len() - n,
    {
        let mv = moves[n];
        proof {
            assert(moves@.contains(mv));
            board.sets.lemma_gen_move_ok(player, mv);
        }
        let child = BitBoard { sets: board.sets.with_move(mv) };
        if !child.is_check(player) {
            let v = match depth {
                Some(d) => eval_with_depth(&child, player, value, d),
                None => evaluate(value, &child, player),
            };
            let ghost pre = r@;
            r.push((mv, v));
            proof {
                assert(r@[r@.len() - 1] == (mv, v));
                assert forall|k3: int| 0 <= k3 < pre.len() implies r@[k3] == pre[k3] by {}
                crate::pick_move::lemma_scored_push(pre, (mv, v), moves@, n as int);
                assert(r@ == pre.push((mv, v)));
            }
        }
        else {
            proof {
                crate::pick_move::lemma_drawn_from_widen(r@, moves@, n as int, n as int + 1);
            }
        }
        n += 1;
    }
    proof {
        assert forall|m: Move| #[trigger] legal_spec(board.sets, player, m) implies exists|
            k: int,
        |
            0 <= k < r@.len() && (#[trigger] r@[k]).0 == m by {
            assert(moves@.contains(m));
            let k2 = choose|k2: int| 0 <= k2 < moves@.len() && moves@[k2] == m;
            assert(legal_spec(board.sets, player, moves@[k2]));
        }
    }
    r
}

impl Engine for Valid {
    open spec fn value_spec(&self, b: Board, c: Color) -> int {
        0
    }

    fn eval_moves(&self, board: &BitBoard, player: Color) -> (r: Vec<(Move, i32)>) {
        scored_moves(board, player, Eval::Zero, None)
    }
}

impl Engine for Greedy {
    open spec fn value_spec(&self, b: Board, c: Color) -> int {
        eval_spec(self.0, b, c)
    }

    fn eval_moves(&self, board: &BitBoard, player: Color) -> (r: Vec<(Move, i32)>) {
        scored_moves(board, player, self.0, None)
    }
}

impl Engine for NegaMax {
    open spec fn value_spec(&self, b: Board, c: Color) -> int {
        if self.depth <= 1000 {
            look_spec(b, c, self.leaf_value, self.depth as nat)
        } else {
            look_spec(b, c, self.leaf_value, 1000)
        }
    }

    fn eval_moves(&self, board: &BitBoard, player: Color) -> (r: Vec<(Move, i32)>) {
        let d = if self.depth <= 1000 {
            self.depth
        } else {
            1000
        };
        scored_moves(board, player, self.leaf_value, Some(d))
    }
}

} // verus!
