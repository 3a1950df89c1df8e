use vstd::prelude::*;
use crate::bits::{count_bits, lemma_count_below_bound, popcount};
use crate::bitboard::BitBoard;
use crate::board::Board;
use crate::color::Color;
use crate::value_functions::{
    heuristic1_spec, heuristic2_spec, lemma_material_sum_bound, lemma_mobility_sum_bound,
    material, material_spec, protection1_spec, threat1_spec,
};

verus! {

/// Material balance of the position, seen from `player`.
pub fn material_value(board: &BitBoard, player: Color) -> (r: i32)
    ensures
        r == material_spec(board.sets, player),
        -6912 <= r <= 6912,
{
    material(&board.sets, player)
}

/// Squares only this side reaches.
pub open spec fn forward_spec(b: Board, c: Color) -> int {
    count_bits(b.attack_vector_spec(c) & !b.attack_vector_spec(c.opposite_spec()))
}

/// Number of squares `player` reaches that the opponent does not.
pub fn forward_value(b: &BitBoard, player: Color) -> (r: u32)
    requires
        b.wf(),
    ensures
        r == forward_spec(b.sets, player),
        r <= 64,
{
    let mobility = b.reach(player) & !b.reach(player.opposite());
    proof {
        lemma_count_below_bound(mobility, 64);
    }
    popcount(mobility)
}

/// Reach advantage over the opponent.
pub open spec fn strategic_spec(b: Board, c: Color) -> int {
    forward_spec(b, c) - forward_spec(b, c.opposite_spec())
}

pub fn strategic_value(b: &BitBoard, player: Color) -> (r: i32)
    requires
        b.wf(),
    ensures
        r == strategic_spec(b.sets, player),
        -64 <= r <= 64,
{
    (forward_value(b, player) as i32) - (forward_value(b, player.opposite()) as i32)
}

/// Material first, reach advantage as a tie breaker.
pub open spec fn basic_spec(b: Board, c: Color) -> int {
    1000 * material_spec(b, c) + strategic_spec(b, c)
}

pub fn basic_value(b: &BitBoard, player: Color) -> (r: i32)
    requires
        b.wf(),
    ensures
        r == basic_spec(b.sets, player),
        -8_000_000 <= r <= 8_000_000,
{
    1000 * material_value(b, player) + strategic_value(b, player)
}

/// The leaf evaluators the search can be configured with, as a tagged
/// variant so that the search's contract can name the value it maximises.
#[derive(Clone, Copy, PartialEq, Eq, Structural, Debug)]
pub enum Eval {
    Zero,
    Material,
    Basic,
    Heuristic1,
    Heuristic2,
}

/// What each evaluator returns on a position, for `c`.
pub open spec fn eval_spec(e: Eval, b: Board, c: Color) -> int {
    match e {
        Eval::Zero => 0,
        Eval::Material => material_spec(b, c),
        Eval::Basic => basic_spec(b, c),
        Eval::Heuristic1 => heuristic1_spec(b, c),
        Eval::Heuristic2 => heuristic2_spec(b, c),
    }
}

/// Every evaluator stays far below the search's mate sentinels.
pub proof fn lemma_eval_bound(e: Eval, b: Board, c: Color)
    ensures
        -8_000_000 <= eval_spec(e, b, c) <= 8_000_000,
{
    lemma_material_sum_bound(b, 12);
    lemma_mobility_sum_bound(b, 12);
    lemma_count_below_bound(
        crate::value_functions::non_king_spec(b, c) & crate::value_functions::attack_all_spec(
            b,
            c,
        ),
        64,
    );
    lemma_count_below_bound(
        crate::value_functions::non_king_spec(b, c.opposite_spec())
            & crate::value_functions::attack_all_spec(b, c.opposite_spec()),
        64,
    );
    lemma_count_below_bound(
        b.pieces_spec(c.opposite_spec()) & crate::value_functions::attack_all_spec(b, c),
        64,
    );
    lemma_count_below_bound(
        b.pieces_spec(c) & crate::value_functions::attack_all_spec(b, c.opposite_spec()),
        64,
    );
    lemma_count_below_bound(
        b.attack_vector_spec(c) & !b.attack_vector_spec(c.opposite_spec()),
        64,
    );
    lemma_count_below_bound(
        b.attack_vector_spec(c.opposite_spec()) & !b.attack_vector_spec(c),
        64,
    );
}

/// Run the configured leaf evaluator.
pub fn evaluate(e: Eval, board: &BitBoard, player: Color) -> (r: i32)
    requires
        board.wf(),
    ensures
        r == eval_spec(e, board.sets, player),
        -8_000_000 <= r <= 8_000_000,
{
    match e {
        Eval::Zero => crate::value_functions::zero(&board.sets, player),
        Eval::Material => material_value(board, player),
        Eval::Basic => basic_value(board, player),
        Eval::Heuristic1 => crate::value_functions::heuristic1(&board.sets, player),
        Eval::Heuristic2 => crate::value_functions::heuristic2(&board.sets, player),
    }
}

} // verus!
