use vstd::prelude::*;
use crate::bitboard::BitBoard;
use crate::color::Color;
use crate::engines::{
    any_legal, is_best_move, psearch_with_tiebreak, search_with_tiebreak, SearchValue,
};
use crate::moves::Move;
use crate::negamax::legal_spec;
use crate::parser::{str_eq, ParseError};
use crate::piece_value::Eval;

verus! {

/// A configured engine, picked by name from the registry.
#[derive(Clone, Copy, PartialEq, Eq, Structural, Debug)]
pub enum EngineKind {
    Valid,
    Greedy(Eval),
    NegaMax(u32, Eval),
    AlphaBeta(u32, Eval),
    ParAlphaBeta(u32, Eval),
}

impl EngineKind {
    pub open spec fn wf(self) -> bool {
        match self {
            EngineKind::NegaMax(d, _) => d <= 1000,
            EngineKind::AlphaBeta(d, _) => d <= 1000,
            EngineKind::ParAlphaBeta(d, _) => d <= 1000,
            _ => true,
        }
    }

    /// The value this engine maximises over the playable root moves.
    pub open spec fn value_spec(self) -> SearchValue {
        match self {
            EngineKind::Valid => SearchValue::Leaf(Eval::Zero),
            EngineKind::Greedy(e) => SearchValue::Leaf(e),
            EngineKind::NegaMax(d, e) => SearchValue::Look(e, d),
            EngineKind::AlphaBeta(d, e) => SearchValue::AlphaBeta(e, d),
            EngineKind::ParAlphaBeta(d, e) => SearchValue::AlphaBeta(e, d),
        }
    }
}

/// Propose a move for `player`: the playable move whose position scores
/// highest under the engine's value, ties broken at random; `None` exactly
/// when no playable move exists, signalling resignation.
pub fn propose_move(
    k: &EngineKind,
    rng: &mut rand::rngs::StdRng,
    board: &BitBoard,
    player: Color,
) -> (r: Option<Move>)
    requires
        board.wf(),
        k.wf(),
    ensures
        r is None <==> !any_legal(board.sets, player),
        r matches Some(m) ==> is_best_move(board.sets, player, k.value_spec(), m),
{
    match k {
        EngineKind::ParAlphaBeta(_, _) => {
            let v = k.value_spec_exec();
            psearch_with_tiebreak(rng, board, player, v)
        },
        _ => {
            let v = k.value_spec_exec();
            search_with_tiebreak(rng, board, player, v)
        },
    }
}

impl EngineKind {
    fn value_spec_exec(&self) -> (r: SearchValue)
        requires
            self.wf(),
        ensures
            r == self.value_spec(),
            r.wf(),
    {
        match *self {
            EngineKind::Valid => SearchValue::Leaf(Eval::Zero),
            EngineKind::Greedy(e) => SearchValue::Leaf(e),
            EngineKind::NegaMax(d, e) => SearchValue::Look(e, d),
            EngineKind::AlphaBeta(d, e) => SearchValue::AlphaBeta(e, d),
            EngineKind::ParAlphaBeta(d, e) => SearchValue::AlphaBeta(e, d),
        }
    }
}

/// The engine a registry name configures, if any.
pub open spec fn engine_table(s: Seq<char>) -> Option<EngineKind> {
    if s == "valid"@ {
        Some(EngineKind::Valid)
    } else if s == "greedy-zero"@ {
        Some(EngineKind::Greedy(Eval::Zero))
    } else if s == "greedy-material"@ {
        Some(EngineKind::Greedy(Eval::Material))
    } else if s == "negamax0-material"@ {
        Some(EngineKind::NegaMax(0, Eval::Material))
    } else if s == "negamax1-material"@ {
        Some(EngineKind::NegaMax(1, Eval::Material))
    } else if s == "negamax2-material"@ {
        Some(EngineKind::NegaMax(2, Eval::Material))
    } else if s == "negamax3-material"@ {
        Some(EngineKind::NegaMax(3, Eval::Material))
    } else if s == "alphabeta0-material"@ {
        Some(EngineKind::AlphaBeta(0, Eval::Material))
    } else if s == "alphabeta1-material"@ {
        Some(EngineKind::AlphaBeta(1, Eval::Material))
    } else if s == "alphabeta2-material"@ {
        Some(EngineKind::AlphaBeta(2, Eval::Material))
    } else if s == "alphabeta3-material"@ {
        Some(EngineKind::AlphaBeta(3, Eval::Material))
    } else if s == "alphabeta4-material"@ {
        Some(EngineKind::AlphaBeta(4, Eval::Material))
    } else if s == "palphabeta0-material"@ {
        Some(EngineKind::ParAlphaBeta(0, Eval::Material))
    } else if s == "palphabeta1-material"@ {
        Some(EngineKind::ParAlphaBeta(1, Eval::Material))
    } else if s == "palphabeta2-material"@ {
        Some(EngineKind::ParAlphaBeta(2, Eval::Material))
    } else if s == "palphabeta3-material"@ {
        Some(EngineKind::ParAlphaBeta(3, Eval::Material))
    } else if s == "palphabeta4-material"@ {
        Some(EngineKind::ParAlphaBeta(4, Eval::Material))
    } else if s == "palphabeta0-strat1"@ {
        Some(EngineKind::ParAlphaBeta(0, Eval::Heuristic1))
    } else if s == "palphabeta1-strat1"@ {
        Some(EngineKind::ParAlphaBeta(1, Eval::Heuristic1))
    } else if s == "palphabeta2-strat1"@ {
        Some(EngineKind::ParAlphaBeta(2, Eval::Heuristic1))
    } else if s == "palphabeta3-strat1"@ {
        Some(EngineKind::ParAlphaBeta(3, Eval::Heuristic1))
    } else if s == "palphabeta4-strat1"@ {
        Some(EngineKind::ParAlphaBeta(4, Eval::Heuristic1))
    } else if s == "palphabeta0-strat2"@ {
        Some(EngineKind::ParAlphaBeta(0, Eval::Heuristic2))
    } else if s == "palphabeta1-strat2"@ {
        Some(EngineKind::ParAlphaBeta(1, Eval::Heuristic2))
    } else if s == "palphabeta2-strat2"@ {
        Some(EngineKind::ParAlphaBeta(2, Eval::Heuristic2))
    } else if s == "palphabeta3-strat2"@ {
        Some(EngineKind::ParAlphaBeta(3, Eval::Heuristic2))
    } else if s == "palphabeta4-strat2"@ {
        Some(EngineKind::ParAlphaBeta(4, Eval::Heuristic2))
    } else {
        None
    }
}

/// Look an engine name up in the registry; unknown names are a
/// configuration error.
pub fn parse_engine(name: &str) -> (r: Result<EngineKind, ParseError>)
    ensures
        r == (match engine_table(name@) {
            Some(k) => Ok::<EngineKind, ParseError>(k),
            None => Err::<EngineKind, ParseError>(ParseError::UnknownEngine),
        }),
        r matches Ok(k) ==> k.wf(),
{
    if str_eq(name, "valid") {
        Ok(EngineKind::Valid)
    } else if str_eq(name, "greedy-zero") {
        Ok(EngineKind::Greedy(Eval::Zero))
    } else if str_eq(name, "greedy-material") {
        Ok(EngineKind::Greedy(Eval::Material))
    } else if str_eq(name, "negamax0-material") {
        Ok(EngineKind::NegaMax(0, Eval::Material))
    } else if str_eq(name, "negamax1-material") {
        Ok(EngineKind::NegaMax(1, Eval::Material))
    } else if str_eq(name, "negamax2-material") {
        Ok(EngineKind::NegaMax(2, Eval::Material))
    } else if str_eq(name, "negamax3-material") {
        Ok(EngineKind::NegaMax(3, Eval::Material))
    } else if str_eq(name, "alphabeta0-material") {
        Ok(EngineKind::AlphaBeta(0, Eval::Material))
    } else if str_eq(name, "alphabeta1-material") {
        Ok(EngineKind::AlphaBeta(1, Eval::Material))
    } else if str_eq(name, "alphabeta2-material") {
        Ok(EngineKind::AlphaBeta(2, Eval::Material))
    } else if str_eq(name, "alphabeta3-material") {
        Ok(EngineKind::AlphaBeta(3, Eval::Material))
    } else if str_eq(name, "alphabeta4-material") {
        Ok(EngineKind::AlphaBeta(4, Eval::Material))
    } else if str_eq(name, "palphabeta0-material") {
        Ok(EngineKind::ParAlphaBeta(0, Eval::Material))
    } else if str_eq(name, "palphabeta1-material") {
        Ok(EngineKind::ParAlphaBeta(1, Eval::Material))
    } else if str_eq(name, "palphabeta2-material") {
        Ok(EngineKind::ParAlphaBeta(2, Eval::Material))
    } else if str_eq(name, "palphabeta3-material") {
        Ok(EngineKind::ParAlphaBeta(3, Eval::Material))
    } else if str_eq(name, "palphabeta4-material") {
        Ok(EngineKind::ParAlphaBeta(4, Eval::Material))
    } else if str_eq(name, "palphabeta0-strat1") {
        Ok(EngineKind::ParAlphaBeta(0, Eval::Heuristic1))
    } else if str_eq(name, "palphabeta1-strat1") {
        Ok(EngineKind::ParAlphaBeta(1, Eval::Heuristic1))
    } else if str_eq(name, "palphabeta2-strat1") {
        Ok(EngineKind::ParAlphaBeta(2, Eval::Heuristic1))
    } else if str_eq(name, "palphabeta3-strat1") {
        Ok(EngineKind::ParAlphaBeta(3, Eval::Heuristic1))
    } else if str_eq(name, "palphabeta4-strat1") {
        Ok(EngineKind::ParAlphaBeta(4, Eval::Heuristic1))
    } else if str_eq(name, "palphabeta0-strat2") {
        Ok(EngineKind::ParAlphaBeta(0, Eval::Heuristic2))
    } else if str_eq(name, "palphabeta1-strat2") {
        Ok(EngineKind::ParAlphaBeta(1, Eval::Heuristic2))
    } else if str_eq(name, "palphabeta2-strat2") {
        Ok(EngineKind::ParAlphaBeta(2, Eval::Heuristic2))
    } else if str_eq(name, "palphabeta3-strat2") {
        Ok(EngineKind::ParAlphaBeta(3, Eval::Heuristic2))
    } else if str_eq(name, "palphabeta4-strat2") {
        Ok(EngineKind::ParAlphaBeta(4, Eval::Heuristic2))
    } else {
        Err(ParseError::UnknownEngine)
    }
}

} // verus!
