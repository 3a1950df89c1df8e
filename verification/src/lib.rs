//! A chess engine core: a bitboard board representation with a verified
//! move generator, a dense reference board proved to generate the same
//! moves, and a negamax / alpha-beta game-tree search (with a parallel
//! variant) under pluggable leaf evaluation and seeded random tie-breaking.

pub mod alphabeta;
pub mod arrayboard;
pub mod bitboard;
pub mod bits;
pub mod board;
pub mod color;
pub mod engine;
pub mod engines;
pub mod formatter;
pub mod lookahead;
pub mod mailbox;
pub mod mod_move;
pub mod moves;
pub mod negamax;
pub mod parse_engine;
pub mod parser;
pub mod pick_move;
pub mod piece;
pub mod piece_value;
pub mod pos;
pub mod pos4;
pub mod rng;
pub mod rules;
pub mod search;
pub mod square;
pub mod util;
pub mod value_functions;
