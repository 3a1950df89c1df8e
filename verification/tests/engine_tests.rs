use std::str::FromStr;

use bitboard::bitboard::BitBoard;
use bitboard::color::Color::{Black, White};
use bitboard::engine::{Engine, Greedy, NegaMax, Valid};
use bitboard::engines::{AlphaBeta, GreedyWith, Lookahead, Lookahead0, Lookahead1, Lookahead2,
    Random};
use bitboard::lookahead::eval_with_depth;
use bitboard::moves::Move;
use bitboard::negamax::negamax;
use bitboard::parse_engine::{parse_engine, propose_move};
use bitboard::pick_move::{best_value, equally_best_options, pick_best_with_tiebreak,
    pick_randomized_within};
use bitboard::piece_value::Eval;
use bitboard::pos::pos;
use bitboard::rng::seed_rng;
use bitboard::search::{evaluate_moves, pick_best_move};
use bitboard::square::Square;
use bitboard::value_functions::{heuristic1, heuristic2, material, mobility, protection, threat,
    zero};

fn bb(board: &str) -> BitBoard {
    BitBoard::from_str(board).unwrap()
}

fn mv(s: &str) -> Move {
    Move::from_str(s).unwrap()
}

#[test]
fn pick_move_helpers() {
    let opts = vec![
        (mv("Ka1a2"), 3),
        (mv("Ka1b2"), 7),
        (mv("Ka1b1"), 7),
        (mv("Kb1c1"), -2),
    ];
    assert_eq!(best_value(&opts), Some(7));
    assert_eq!(best_value(&Vec::new()), None);

    let best = equally_best_options(&opts);
    assert_eq!(best.len(), 2);
    for pr in &best {
        assert_eq!(pr.1, 7);
    }

    let mut rng = seed_rng(5);
    let picked = pick_best_with_tiebreak(&mut rng, &opts).unwrap();
    assert!(picked == mv("Ka1b2") || picked == mv("Ka1b1"));

    let within = pick_randomized_within(&mut rng, &opts, 2, 5).unwrap();
    assert!(opts.iter().any(|(m, _)| *m == within));
    assert_eq!(pick_randomized_within(&mut rng, &Vec::new(), 2, 5), None);

    let mut rng2 = seed_rng(5);
    assert_eq!(pick_best_move(&mut rng2, opts.clone()).unwrap(), picked);
    assert_eq!(pick_best_move(&mut rng2, Vec::new()), None);
}

#[test]
fn engines_propose_legal_moves() {
    let b = bb("
	. . . . . . . k
	. . p . . . . .
	. . . . . . . .
	. . . . . . . .
	. . R . . . . .
	. . . . . . . .
	. . . . . . . .
	K . . . . . . .
	");
    let legal: Vec<Move> = b
        .collect_moves(White)
        .into_iter()
        .filter(|m| !b.with_move(*m).is_check(White))
        .collect();

    let mut rng = seed_rng(1);
    let m = Random().do_move(&mut rng, &b, White).unwrap();
    assert!(legal.contains(&m));

    let mut g = bitboard::engines::Greedy::new(2);
    let m = g.do_move(&b, White).unwrap();
    // the rook takes the pawn: the unique material-best move
    assert_eq!(m, mv("Rc4c7").piece_at(&b));

    let mut gw = GreedyWith::new(3, Eval::Material);
    assert!(legal.contains(&gw.do_move(&b, White).unwrap()));

    for m in [
        Lookahead0(Eval::Material).do_move(&mut rng, &b, White).unwrap(),
        Lookahead1(Eval::Material).do_move(&mut rng, &b, White).unwrap(),
        Lookahead2(Eval::Material).do_move(&mut rng, &b, White).unwrap(),
        Lookahead::new(Eval::Material, 2).do_move(&mut rng, &b, White).unwrap(),
        AlphaBeta::new(Eval::Material, 2).do_move(&mut rng, &b, White).unwrap(),
    ] {
        assert!(legal.contains(&m));
    }

    let k = parse_engine("alphabeta2-material").unwrap();
    assert!(legal.contains(&propose_move(&k, &mut rng, &b, White).unwrap()));

    // no playable move at all: resignation
    let empty = BitBoard::new();
    assert_eq!(propose_move(&k, &mut rng, &empty, White), None);
}

// helper: tag a parsed move with the piece actually on its origin square
trait PieceAt {
    fn piece_at(self, b: &BitBoard) -> Move;
}

impl PieceAt for Move {
    fn piece_at(self, b: &BitBoard) -> Move {
        Move { piece: b.at(self.from), from: self.from, to: self.to }
    }
}

#[test]
fn eval_moves_engines() {
    let b = bb("
	. . . . . . . k
	. . p . . . . .
	. . . . . . . .
	. . . . . . . .
	. . R . . . . .
	. . . . . . . .
	. . . . . . . .
	K . . . . . . .
	");
    let vm = Valid().eval_moves(&b, White);
    for (_, v) in &vm {
        assert_eq!(*v, 0);
    }

    let gm = Greedy(Eval::Material).eval_moves(&b, White);
    assert_eq!(gm.iter().map(|p| p.1).max().unwrap(), 5);

    let nm = NegaMax::new(1, Eval::Material).eval_moves(&b, White);
    assert_eq!(nm.len(), gm.len());

    // evaluate_moves negates the opponent's view of the position
    let em = evaluate_moves(&b, White, Eval::Material);
    for (m, v) in &em {
        let child = BitBoard { sets: b.sets.with_move(*m) };
        assert_eq!(*v, bitboard::piece_value::material_value(&child, White));
    }
}

#[test]
fn lookahead_values() {
    let b = bb("
	. . . . . . . k
	. . p . . . . .
	. . . . . . . .
	. . . . . . . .
	. . R . . . . .
	. . . . . . . .
	. . . . . . . .
	K . . . . . . .
	");
    // at depth zero the lookahead is the leaf value
    assert_eq!(eval_with_depth(&b, White, Eval::Material, 0), 4);
    // one ply deep, black's best reply still cannot save the pawn
    let one = eval_with_depth(&b, White, Eval::Material, 1);
    assert_eq!(one, 4);
    // negamax agrees with the lookahead away from king terminals
    assert_eq!(negamax(&b, White, Eval::Material, 0), 4);
}

#[test]
fn value_functions_basics() {
    let start = bb("
	r n b k q b n r
	p p p p p p p p
	. . . . . . . .
	. . . . . . . .
	. . . . . . . .
	. . . . . . . .
	P P P P P P P P
	R N B K Q B N R
	");
    let board = &start.sets;
    assert_eq!(material(board, White), 0);
    assert_eq!(zero(board, White), 0);
    let attck = board.attack_vectors();
    assert_eq!(protection(board, &attck, White), 0);
    assert_eq!(threat(board, &attck, White), 0);
    assert_eq!(mobility(board, &attck, White), 0);
    // symmetric start: both heuristics are antisymmetric in the player
    assert_eq!(heuristic1(board, White), -heuristic1(board, Black));
    assert_eq!(heuristic2(board, White), -heuristic2(board, Black));

    let up = bb("
	. . . . . . . k
	. . . . . . . .
	. . . . . . . .
	. . . . . . . .
	. . . . . . . .
	. . . . . . . .
	. . . . . . . .
	Q . . . . . . K
	");
    assert_eq!(material(&up.sets, White), 9);
    assert_eq!(material(&up.sets, Black), -9);
    assert!(heuristic2(&up.sets, White) >= 9000);
}

#[test]
fn king_distance_value() {
    let b = bb("
	. . . . . . . k
	. . . . . . . .
	. . . . . . . .
	. . . . . . . .
	. . . . . . . .
	. . . . . . . .
	. . . . . . . .
	K . . . . . . .
	");
    // the white king is 14 squares from the black king
    assert_eq!(bitboard::value_functions::king_distance(&b.sets, White), -14);
}

#[test]
fn board_primitives() {
    let mut b = bitboard::board::Board::new();
    assert_eq!(b.at(pos(4, 4)), Square::Empty);
    b.set(pos(4, 4), Square::WQueen);
    assert_eq!(b.at(pos(4, 4)), Square::WQueen);
    assert_eq!(b.piece_count(Square::WQueen), 1);
    b.set(pos(4, 4), Square::BPawn);
    assert_eq!(b.at(pos(4, 4)), Square::BPawn);
    assert_eq!(b.piece_count(Square::WQueen), 0);
    assert!(b.has_king(White) == false);

    let start = bitboard::board::Board::starting_position();
    assert_eq!(start.at(pos(0, 3)), Square::WKing);
    assert_eq!(start.at(pos(7, 3)), Square::BKing);
    assert_eq!(start.at(pos(1, 5)), Square::WPawn);
    assert_eq!(start.piece_count(Square::WPawn), 8);
    assert!(start.has_king(White) && start.has_king(Black));
    assert!(!start.is_check(White) && !start.is_check(Black));
}
