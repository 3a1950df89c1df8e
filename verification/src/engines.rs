use vstd::prelude::*;
use rayon::iter::{IntoParallelRefIterator, ParallelIterator};
use crate::alphabeta::alphabeta_;
use crate::bitboard::BitBoard;
use crate::board::Board;
use crate::color::Color;
use crate::lookahead::{eval_with_depth, look_spec};
use crate::moves::Move;
use crate::negamax::{legal_spec, nega_spec, INF};
use crate::piece_value::{eval_spec, evaluate, Eval};
use crate::pick_move::{lemma_max_pref, max_pref};
use crate::rng::{rng_below, seed_rng};

verus! {

/// The value function a tie-breaking search maximises over the positions
/// after each playable root move.
#[derive(Clone, Copy, PartialEq, Eq, Structural, Debug)]
pub enum SearchValue {
    Leaf(Eval),
    Look(Eval, u32),
    AlphaBeta(Eval, u32),
}

impl SearchValue {
    pub open spec fn wf(self) -> bool {
        match self {
            SearchValue::Leaf(_) => true,
            SearchValue::Look(_, d) => d <= 1000,
            SearchValue::AlphaBeta(_, d) => d <= 1000,
        }
    }
}

/// What each search value computes on a position, for the side `c` that
/// just played into it.
pub open spec fn search_value_spec(v: SearchValue, b: Board, c: Color) -> int {
    match v {
        SearchValue::Leaf(e) => eval_spec(e, b, c),
        SearchValue::Look(e, d) => look_spec(b, c, e, d as nat),
        SearchValue::AlphaBeta(e, d) => -nega_spec(b, c.opposite_spec(), e, d as nat),
    }
}

/// Run the configured search value on a position.
pub fn eval_search_value(v: SearchValue, board: &BitBoard, c: Color) -> (r: i32)
    requires
        board.wf(),
        v.wf(),
    ensures
        r == search_value_spec(v, board.sets, c),
        -INF - 1001 <= r <= INF + 1001,
{
    match v {
        SearchValue::Leaf(e) => evaluate(e, board, c),
        SearchValue::Look(e, d) => eval_with_depth(board, c, e, d),
        SearchValue::AlphaBeta(e, d) => {
            proof {
                crate::negamax::lemma_nega_bound(
                    board.sets,
                    c.opposite_spec(),
                    e,
                    d as nat,
                );
            }
            0 - crate::alphabeta::alphabeta(board, c.opposite(), e, d)
        },
    }
}

/// Does `c` have a playable move on `b`?
pub open spec fn any_legal(b: Board, c: Color) -> bool {
    exists|m: Move| #[trigger] legal_spec(b, c, m)
}

/// Is `m` a playable move for `c` whose value is not beaten by any other?
pub open spec fn is_best_move(b: Board, c: Color, v: SearchValue, m: Move) -> bool {
    legal_spec(b, c, m) && forall|m2: Move|
        #[trigger] legal_spec(b, c, m2) ==> search_value_spec(v, b.with_move_spec(m2), c)
            <= search_value_spec(v, b.with_move_spec(m), c)
}

/// The playable root moves with their values.
#[verifier::rlimit(80)]
#[verifier::spinoff_prover]
fn legal_values(board: &BitBoard, player: Color, value: SearchValue) -> (r: Vec<(Move, i32)>)
    requires
        board.wf(),
        value.wf(),
    ensures
        forall|k: int|
            0 <= k < r@.len() ==> legal_spec(board.sets, player, (#[trigger] r@[k]).0)
                && r@[k].1 as int == search_value_spec(
                value,
                board.sets.with_move_spec(r@[k].0),
                player,
            ),
        forall|m: Move|
            #[trigger] legal_spec(board.sets, player, m) ==> exists|k: int|
                0 <= k < r@.len() && (#[trigger] r@[k]).0 == m,
        r@.len() == 0 <==> !any_legal(board.sets, player),
        forall|k1: int, k2: int| 0 <= k1 < k2 < r@.len() ==> r@[k1].0 != r@[k2].0,
{
    let moves = board.collect_moves(player);
    let mut r: Vec<(Move, i32)> = Vec::new();
    let mut n: usize = 0;
    while n < moves.len()
        invariant
            board.wf(),
            value.wf(),
            n <= moves@.len(),
            forall|m: Move| moves@.contains(m) <==> board.sets.gen_move_spec(player, m),
            forall|k1: int, k2: int| 0 <= k1 < k2 < moves@.len() ==> moves@[k1] != moves@[k2],
            crate::pick_move::drawn_from(r@, moves@, n as int),
            forall|k1: int, k2: int| 0 <= k1 < k2 < r@.len() ==> r@[k1].0 != r@[k2].0,
            forall|k: int|
                0 <= k < r@.len() ==> legal_spec(board.sets, player, (#[trigger] r@[k]).0)
                    && r@[k].1 as int == search_value_spec(
                    value,
                    board.sets.with_move_spec(r@[k].0),
                    player,
                ),
            forall|k2: int|
                0 <= k2 < n && legal_spec(board.sets, player, #[trigger] moves@[k2]) ==> exists|
                    k3: int,
                | 0 <= k3 < r@.len() && (#[trigger] r@[k3]).0 == moves@[k2],
        decreases moves@.len() - n,
    {
        let mv = moves[n];
        proof {
            assert(moves@.contains(mv));
            board.sets.lemma_gen_move_ok(player, mv);
        }
        let child = BitBoard { sets: board.sets.with_move(mv) };
        if !child.is_check(player) {
            let v = eval_search_value(value, &child, player);
            let ghost pre = r@;
            r.push((mv, v));
            proof {
                assert(r@[r@.len() - 1] == (mv, v));
                assert forall|k3: int| 0 <= k3 < pre.len() implies r@[k3] == pre[k3] by {}
                crate::pick_move::lemma_scored_push(pre, (mv, v), moves@, n as int);
                assert(r@ == pre.push((mv, v)));
            }
        }
        else {
            proof {
                crate::pick_move::lemma_drawn_from_widen(r@, moves@, n as int, n as int + 1);
            }
        }
        n += 1;
    }
    proof {
        assert forall|m: Move| #[trigger] legal_spec(board.sets, player, m) implies exists|
            k: int,
        |
            0 <= k < r@.len() && (#[trigger] r@[k]).0 == m by {
            assert(moves@.contains(m));
            let k2 = choose|k2: int| 0 <= k2 < moves@.len() && moves@[k2] == m;
            assert(legal_spec(board.sets, player, moves@[k2]));
        }
        if r@.len() > 0 {
            assert(legal_spec(board.sets, player, r@[0].0));
        }
        if any_legal(board.sets, player) {
            let m = choose|m: Move| #[trigger] legal_spec(board.sets, player, m);
            assert(r@.len() > 0);
        }
    }
    r
}

/// Pick the playable move whose position scores highest under `value`,
/// breaking ties at random; `None` exactly when no playable move exists.
pub fn search_with_tiebreak(
    rng: &mut rand::rngs::StdRng,
    board: &BitBoard,
    player: Color,
    value: SearchValue,
) -> (r: Option<Move>)
    requires
        board.wf(),
        value.wf(),
    ensures
        r is None <==> !any_legal(board.sets, player),
        r matches Some(m) ==> is_best_move(board.sets, player, value, m),
{
    let pairs = legal_values(board, player, value);
    pick_among_best(rng, board, player, value, pairs)
}

/// The shared tie-breaking tail: pick uniformly among the top-valued pairs.
fn pick_among_best(
    rng: &mut rand::rngs::StdRng,
    board: &BitBoard,
    player: Color,
    value: SearchValue,
    pairs: Vec<(Move, i32)>,
) -> (r: Option<Move>)
    requires
        board.wf(),
        value.wf(),
        forall|k: int|
            0 <= k < pairs@.len() ==> legal_spec(board.sets, player, (#[trigger] pairs@[k]).0)
                && pairs@[k].1 as int == search_value_spec(
                value,
                board.sets.with_move_spec(pairs@[k].0),
                player,
            ),
        forall|m: Move|
            #[trigger] legal_spec(board.sets, player, m) ==> exists|k: int|
                0 <= k < pairs@.len() && (#[trigger] pairs@[k]).0 == m,
        pairs@.len() == 0 <==> !any_legal(board.sets, player),
    ensures
        r is None <==> !any_legal(board.sets, player),
        r matches Some(m) ==> is_best_move(board.sets, player, value, m),
{
    if pairs.len() == 0 {
        return None;
    }
    let chosen = match crate::pick_move::pick_best_with_tiebreak(rng, &pairs) {
        Some(m) => m,
        None => {
            return None;
        },
    };
    proof {
        lemma_max_pref(pairs@, pairs@.len() as int);
        let kc = choose|kc: int|
            0 <= kc < pairs@.len() && pairs@[kc] == (chosen, max_pref(
                pairs@,
                pairs@.len() as int,
            ) as i32);
        assert(legal_spec(board.sets, player, chosen));
        assert forall|m2: Move| #[trigger] legal_spec(board.sets, player, m2)
            implies search_value_spec(value, board.sets.with_move_spec(m2), player)
            <= search_value_spec(value, board.sets.with_move_spec(chosen), player) by {
            let k2 = choose|k2: int| 0 <= k2 < pairs@.len() && (#[trigger] pairs@[k2]).0 == m2;
            assert(pairs@[k2].1 <= max_pref(pairs@, pairs@.len() as int));
        }
    }
    Some(chosen)
}

/// Relies on rayon's parallel iterator (`par_iter`, `map`, `collect` on a
/// `Vec`): the result has one element per input board, in order, each the
/// closure's value on that board; the closure only calls the verified
/// `eval_search_value`.
#[verifier::external_body]
fn par_values(children: &Vec<BitBoard>, player: Color, value: SearchValue) -> (r: Vec<i32>)
    requires
        forall|k: int| 0 <= k < children@.len() ==> (#[trigger] children@[k]).wf(),
        value.wf(),
    ensures
        r@.len() == children@.len(),
        forall|k: int|
            0 <= k < r@.len() ==> r@[k] as int == search_value_spec(
                value,
                (#[trigger] children@[k]).sets,
                player,
            ),
{
    children.par_iter().map(|b| eval_search_value(value, b, player)).collect()
}

/// Like `search_with_tiebreak`, but the root positions are scored in
/// parallel, one independent search per root move.
pub fn psearch_with_tiebreak(
    rng: &mut rand::rngs::StdRng,
    board: &BitBoard,
    player: Color,
    value: SearchValue,
) -> (r: Option<Move>)
    requires
        board.wf(),
        value.wf(),
    ensures
        r is None <==> !any_legal(board.sets, player),
        r matches Some(m) ==> is_best_move(board.sets, player, value, m),
{
    let moves = board.collect_moves(player);
    let mut legal: Vec<Move> = Vec::new();
    let mut children: Vec<BitBoard> = Vec::new();
    let mut n: usize = 0;
    while n < moves.len()
        invariant
            board.wf(),
            value.wf(),
            n <= moves@.len(),
            forall|m: Move| moves@.contains(m) <==> board.sets.gen_move_spec(player, m),
            legal@.len() == children@.len(),
            forall|k: int|
                0 <= k < legal@.len() ==> legal_spec(board.sets, player, #[trigger] legal@[k]),
            forall|k: int|
                0 <= k < children@.len() ==> (#[trigger] children@[k]).sets
                    == board.sets.with_move_spec(legal@[k]) && children@[k].wf(),
            forall|k2: int|
                0 <= k2 < n && legal_spec(board.sets, player, #[trigger] moves@[k2]) ==> exists|
                    k3: int,
                | 0 <= k3 < legal@.len() && #[trigger] legal@[k3] == moves@[k2],
        decreases moves@.len() - n,
    {
        let mv = moves[n];
        proof {
            assert(moves@.contains(mv));
            board.sets.lemma_gen_move_ok(player, mv);
        }
        let child = BitBoard { sets: board.sets.with_move(mv) };
        if !child.is_check(player) {
            let ghost pl = legal@;
            let ghost pc = children@;
            legal.push(mv);
            children.push(child);
            proof {
                assert(legal@[legal@.len() - 1] == mv);
                assert(children@[children@.len() - 1] == child);
                assert forall|k3: int| 0 <= k3 < pl.len() implies legal@[k3] == pl[k3] by {}
                assert forall|k3: int| 0 <= k3 < pc.len() implies children@[k3] == pc[k3] by {}
            }
        }
        n += 1;
    }
    let values = par_values(&children, player, value);
    let mut pairs: Vec<(Move, i32)> = Vec::new();
    let mut k: usize = 0;
    while k < legal.len()
        invariant
            board.wf(),
            value.wf(),
            k <= legal@.len(),
            legal@.len() == children@.len(),
            values@.len() == children@.len(),
            forall|k2: int|
                0 <= k2 < legal@.len() ==> legal_spec(board.sets, player, #[trigger] legal@[k2]),
            forall|k2: int|
                0 <= k2 < children@.len() ==> (#[trigger] children@[k2]).sets
                    == board.sets.with_move_spec(legal@[k2]),
            forall|k2: int|
                0 <= k2 < values@.len() ==> (#[trigger] values@[k2]) as int == search_value_spec(
                    value,
                    children@[k2].sets,
                    player,
                ),
            pairs@.len() == k,
            forall|k2: int|
                0 <= k2 < k ==> (#[trigger] pairs@[k2]) == (legal@[k2], values@[k2]),
        decreases legal@.len() - k,
    {
        pairs.push((legal[k], values[k]));
        k += 1;
    }
    proof {
        assert forall|k2: int| 0 <= k2 < pairs@.len() implies legal_spec(
            board.sets,
            player,
            (#[trigger] pairs@[k2]).0,
        ) && pairs@[k2].1 as int == search_value_spec(
            value,
            board.sets.with_move_spec(pairs@[k2].0),
            player,
        ) by {}
        assert forall|m: Move| #[trigger] legal_spec(board.sets, player, m) implies exists|
            k3: int,
        |
            0 <= k3 < pairs@.len() && (#[trigger] pairs@[k3]).0 == m by {
            assert(moves@.contains(m));
            let k2 = choose|k2: int| 0 <= k2 < moves@.len() && moves@[k2] == m;
            assert(legal_spec(board.sets, player, moves@[k2]));
            let k3 = choose|k3: int| 0 <= k3 < legal@.len() && #[trigger] legal@[k3] == m;
            assert(pairs@[k3].0 == m);
        }
        if pairs@.len() > 0 {
            assert(legal_spec(board.sets, player, pairs@[0].0));
        }
        if any_legal(board.sets, player) {
            let m = choose|m: Move| #[trigger] legal_spec(board.sets, player, m);
            assert(pairs@.len() > 0);
        }
    }
    pick_among_best(rng, board, player, value, pairs)
}

// ___________________________________________________________ engines

/// Plays a uniformly random playable move.
pub struct Random();

impl Random {
    pub fn do_move(&self, rng: &mut rand::rngs::StdRng, board: &BitBoard, player: Color) -> (r:
        Option<Move>)
        requires
            board.wf(),
        ensures
            r is None <==> !any_legal(board.sets, player),
            r matches Some(m) ==> legal_spec(board.sets, player, m),
    {
        let pairs = legal_values(board, player, SearchValue::Leaf(Eval::Zero));
        if pairs.len() == 0 {
            return None;
        }
        let pick = rng_below(rng, pairs.len());
        Some(pairs[pick].0)
    }
}

/// Greedily takes material, with no lookahead or position value.
pub struct Greedy {
    pub rng: rand::rngs::StdRng,
}

impl Greedy {
    pub fn new(seed: u64) -> Self {
        Greedy { rng: seed_rng(seed) }
    }

    pub fn do_move(&mut self, board: &BitBoard, player: Color) -> (r: Option<Move>)
        requires
            board.wf(),
        ensures
            r is None <==> !any_legal(board.sets, player),
            r matches Some(m) ==> is_best_move(
                board.sets,
                player,
                SearchValue::Leaf(Eval::Material),
                m,
            ),
    {
        search_with_tiebreak(&mut self.rng, board, player, SearchValue::Leaf(Eval::Material))
    }
}

/// Greedy, under a configurable position value.
pub struct GreedyWith {
    pub rng: rand::rngs::StdRng,
    pub value: Eval,
}

impl GreedyWith {
    pub fn new(seed: u64, value: Eval) -> Self {
        GreedyWith { rng: seed_rng(seed), value }
    }

    pub fn do_move(&mut self, board: &BitBoard, player: Color) -> (r: Option<Move>)
        requires
            board.wf(),
        ensures
            r is None <==> !any_legal(board.sets, player),
            r matches Some(m) ==> is_best_move(
                board.sets,
                player,
                SearchValue::Leaf(old(self).value),
                m,
            ),
    {
        let v = self.value;
        search_with_tiebreak(&mut self.rng, board, player, SearchValue::Leaf(v))
    }
}

/// Greedy on material value: a configured `GreedyWith`.
pub fn greedy_with_king_dist(seed: u64) -> GreedyWith {
    GreedyWith::new(seed, Eval::Material)
}

/// Search without lookahead.
pub struct Lookahead0(pub Eval);

impl Lookahead0 {
    pub fn do_move(&self, rng: &mut rand::rngs::StdRng, board: &BitBoard, player: Color) -> (r:
        Option<Move>)
        requires
            board.wf(),
        ensures
            r is None <==> !any_legal(board.sets, player),
            r matches Some(m) ==> is_best_move(board.sets, player, SearchValue::Leaf(self.0), m),
    {
        search_with_tiebreak(rng, board, player, SearchValue::Leaf(self.0))
    }
}

/// One-ply lookahead: greedy search under the leaf value.
pub struct Lookahead1(pub Eval);

impl Lookahead1 {
    pub fn do_move(&self, rng: &mut rand::rngs::StdRng, board: &BitBoard, player: Color) -> (r:
        Option<Move>)
        requires
            board.wf(),
        ensures
            r is None <==> !any_legal(board.sets, player),
            r matches Some(m) ==> is_best_move(board.sets, player, SearchValue::Leaf(self.0), m),
    {
        search_with_tiebreak(rng, board, player, SearchValue::Leaf(self.0))
    }
}

/// Two-ply lookahead: pick the best move under a one-ply evaluation.
pub struct Lookahead2(pub Eval);

impl Lookahead2 {
    /// The value of a position for `player`: the negated best opponent
    /// reply, one ply deep.
    pub fn evaluate(&self, board: &BitBoard, player: Color) -> (r: i32)
        requires
            board.wf(),
        ensures
            r == look_spec(board.sets, player, self.0, 1),
    {
        eval_with_depth(board, player, self.0, 1)
    }

    pub fn do_move(&self, rng: &mut rand::rngs::StdRng, board: &BitBoard, player: Color) -> (r:
        Option<Move>)
        requires
            board.wf(),
        ensures
            r is None <==> !any_legal(board.sets, player),
            r matches Some(m) ==> is_best_move(
                board.sets,
                player,
                SearchValue::Look(self.0, 1),
                m,
            ),
    {
        search_with_tiebreak(rng, board, player, SearchValue::Look(self.0, 1))
    }
}

/// N-ply lookahead: pick the best move under an (N-1)-ply evaluation.
pub struct Lookahead {
    pub leaf_value: Eval,
    pub depth: u32,
}

impl Lookahead {
    pub fn new(leaf_value: Eval, depth: u32) -> (r: Self)
        requires
            depth <= 1000,
        ensures
            r.leaf_value == leaf_value,
            r.depth == depth,
    {
        Lookahead { leaf_value, depth }
    }

    pub fn do_move(&self, rng: &mut rand::rngs::StdRng, board: &BitBoard, player: Color) -> (r:
        Option<Move>)
        requires
            board.wf(),
            self.depth <= 1000,
        ensures
            r is None <==> !any_legal(board.sets, player),
            r matches Some(m) ==> is_best_move(
                board.sets,
                player,
                SearchValue::Look(self.leaf_value, self.depth),
                m,
            ),
    {
        search_with_tiebreak(
            rng,
            board,
            player,
            SearchValue::Look(self.leaf_value, self.depth),
        )
    }
}

/// Alpha-beta search to a fixed depth, parallel over the root moves.
pub struct AlphaBeta {
    pub leaf_value: Eval,
    pub depth: u32,
}

impl AlphaBeta {
    pub fn new(leaf_value: Eval, depth: u32) -> (r: Self)
        requires
            depth <= 1000,
        ensures
            r.leaf_value == leaf_value,
            r.depth == depth,
    {
        AlphaBeta { leaf_value, depth }
    }

    /// The fail-soft alpha-beta value of a position inside a window; exact
    /// inside the window, a bound outside it.
    pub fn alphabeta(&self, board: &BitBoard, player: Color, alpha: i32, beta: i32, depth: u32) -> (r: i32)
        requires
            board.wf(),
            depth <= 1000,
            alpha < beta,
            -INF - 1001 <= alpha,
            beta <= INF + 1001,
        ensures
            ({
                let v = nega_spec(board.sets, player, self.leaf_value, depth as nat);
                &&& (r <= alpha ==> v <= r)
                &&& (r >= beta ==> v >= r)
                &&& (alpha < r < beta ==> v == r)
            }),
    {
        let rr = alphabeta_(board, player, self.leaf_value, alpha, beta, depth);
        rr.1
    }

    pub fn do_move(&self, rng: &mut rand::rngs::StdRng, board: &BitBoard, player: Color) -> (r:
        Option<Move>)
        requires
            board.wf(),
            self.depth <= 1000,
        ensures
            r is None <==> !any_legal(board.sets, player),
            r matches Some(m) ==> is_best_move(
                board.sets,
                player,
                SearchValue::AlphaBeta(self.leaf_value, self.depth),
                m,
            ),
    {
        psearch_with_tiebreak(
            rng,
            board,
            player,
            SearchValue::AlphaBeta(self.leaf_value, self.depth),
        )
    }
}

} // verus!
