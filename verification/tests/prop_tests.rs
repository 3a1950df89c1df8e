use std::str::FromStr;

use bitboard::alphabeta::alphabeta;
use bitboard::bitboard::BitBoard;
use bitboard::board::{is_mate, Board};
use bitboard::color::Color::{Black, White};
use bitboard::engines::{psearch_with_tiebreak, search_with_tiebreak, SearchValue};
use bitboard::mailbox::Mailbox;
use bitboard::moves::Move;
use bitboard::negamax::negamax;
use bitboard::parse_engine::{parse_engine, EngineKind};
use bitboard::parser::ParseError;
use bitboard::piece_value::{basic_value, material_value, Eval};
use bitboard::rng::seed_rng;
use bitboard::square::Square;

type PosSet<T> = fnv::FnvHashSet<T>;

const BATTERY: [&str; 4] = [
    "
	. . . . R . . k
	. . . . R . . .
	. . . . . . . .
	. . . . . . . .
	. . . . . . . .
	. . . . . . . .
	. . . . . . . .
	. . . . . . . K
	",
    "
	. . . . . . . .
	. . . . . p . .
	. . . . p . . .
	. . . . . . . .
	. . . . . . . .
	. . . . Q . . .
	. . . . . . . .
	k . . . . . . K
	",
    "
	Q . . p p p . k
	. . . . . . . .
	. . . . . . . .
	. . . . . . . .
	. . . . . . . .
	. . . . . . . .
	. . . . . . . .
	. . . . . . . K
	",
    "
	. . . . . . . k
	. . n . . . . .
	. . . . . . . .
	. . b . . r . .
	. . . . . . . .
	. . . P . . . .
	. N . . . . . .
	q . . P P P . K
	",
];

fn bb(board: &str) -> BitBoard {
    BitBoard::from_str(board).unwrap()
}

// Both move generators emit the same move set, on the battery and on many
// randomly perturbed boards.
#[test]
fn generator_equivalence_battery() {
    for s in BATTERY {
        let b = bb(s);
        let mb = Mailbox::from_board(&b.sets);
        for player in [White, Black] {
            let have: PosSet<Move> = b.collect_moves(player).into_iter().collect();
            let want: PosSet<Move> = mb.collect_moves(player).into_iter().collect();
            assert_eq!(have, want);
        }
    }
}

// Reading a board's text back yields the same board.
#[test]
fn round_trip() {
    let mut boards: Vec<Board> = vec![Board::starting_position()];
    for s in BATTERY {
        boards.push(bb(s).sets);
    }
    // a few positions reached by play from the start
    let mut b = Board::starting_position();
    let mut rng = seed_rng(7);
    for _ in 0..40 {
        if let Some(m) = search_with_tiebreak(
            &mut rng,
            &BitBoard { sets: b },
            White,
            SearchValue::Leaf(Eval::Material),
        ) {
            b = b.with_move(m);
            boards.push(b);
        }
        if let Some(m) = search_with_tiebreak(
            &mut rng,
            &BitBoard { sets: b },
            Black,
            SearchValue::Leaf(Eval::Material),
        ) {
            b = b.with_move(m);
            boards.push(b);
        }
    }
    for b in boards {
        let text = b.to_text();
        let back = bitboard::parser::parse_board(&text).unwrap();
        for i in 0..64 {
            let p = bitboard::pos::Pos::from_index(i);
            assert_eq!(back.at(p), b.at(p));
        }
    }
}

// Playing a move changes only its two endpoint squares.
#[test]
fn with_move_locality() {
    for s in BATTERY {
        let b = bb(s);
        for player in [White, Black] {
            for m in b.collect_moves(player) {
                let after = b.sets.with_move(m);
                for i in 0..64 {
                    let p = bitboard::pos::Pos::from_index(i);
                    if p != m.from && p != m.to {
                        assert_eq!(after.at(p), b.sets.at(p));
                    }
                }
                assert_eq!(after.at(m.from), Square::Empty);
                assert_eq!(after.at(m.to), b.sets.at(m.from));
            }
        }
    }
}

// A mate is a position where every pseudo-legal move still leaves the
// mover in check; a stalemate of this loose kind counts too.
#[test]
fn mate_scenarios() {
    // back-rank mate against white
    let mated = bb("
	. . . k . . . .
	. . . . . . . .
	. . . . . . . .
	. . . . . . . .
	. . . . . . . .
	. . . . . . . .
	. r . . . . . .
	. . r . . . . K
	");
    assert!(is_mate(&mated.sets, White));
    assert!(!is_mate(&mated.sets, Black));

    // the same check with the second rank left open is no mate
    let free = bb("
	. . . k . . . .
	. . . . . . . .
	. . . . . . . .
	. . . . . . . .
	. . . . . . . .
	. r . . . . . .
	. . . . . . . .
	. . . r . . . K
	");
    assert!(!is_mate(&free.sets, White));

    // no pseudo-legal moves at all counts as mate
    let empty = Board::new();
    assert!(is_mate(&empty, White));
}

// Negamax, alpha-beta and the parallel alpha-beta agree on the battery.
#[test]
fn search_consistency() {
    for s in BATTERY {
        let b = bb(s);
        for player in [White, Black] {
            for depth in 0..4 {
                let n = negamax(&b, player, Eval::Material, depth);
                let a = alphabeta(&b, player, Eval::Material, depth);
                assert_eq!(n, a);
            }
        }
    }
}

// The parallel search picks a move of the same value as the sequential one.
#[test]
fn parallel_search_agrees() {
    for s in BATTERY {
        let b = bb(s);
        for player in [White, Black] {
            let v = SearchValue::AlphaBeta(Eval::Material, 2);
            let mut rng1 = seed_rng(99);
            let mut rng2 = seed_rng(99);
            let seq = search_with_tiebreak(&mut rng1, &b, player, v);
            let par = psearch_with_tiebreak(&mut rng2, &b, player, v);
            match (seq, par) {
                (None, None) => {},
                (Some(m1), Some(m2)) => {
                    let c1 = BitBoard { sets: b.sets.with_move(m1) };
                    let c2 = BitBoard { sets: b.sets.with_move(m2) };
                    assert_eq!(
                        -alphabeta(&c1, player.opposite(), Eval::Material, 2),
                        -alphabeta(&c2, player.opposite(), Eval::Material, 2),
                    );
                },
                other => panic!("searches disagree: {:?}", other),
            }
        }
    }
}

// Across many seeded trials, each of the tied-best moves is picked with
// non-zero frequency, and a fixed seed reproduces the same pick.
#[test]
fn tiebreak_fairness() {
    // a lone white king in a corner: all moves tie at the same value
    let b = bb("
	. . . . . . . .
	. . . . . . . .
	. . . . . . . .
	. . . . . . . .
	. . . . . . . .
	. . . . . . . .
	. . . . . . . .
	K . . . . . . .
	");
    let legal: PosSet<Move> = b.collect_moves(White).into_iter().collect();
    assert_eq!(legal.len(), 3);

    let mut seen: PosSet<Move> = PosSet::default();
    for seed in 0..200 {
        let mut rng = seed_rng(seed);
        let m = search_with_tiebreak(&mut rng, &b, White, SearchValue::Leaf(Eval::Material))
            .unwrap();
        assert!(legal.contains(&m));
        seen.insert(m);
    }
    // every tied move shows up over the trials
    assert_eq!(seen.len(), legal.len());

    // a fixed seed reproduces the same pick
    for seed in [0u64, 1, 42, 123456] {
        let mut r1 = seed_rng(seed);
        let mut r2 = seed_rng(seed);
        let m1 = search_with_tiebreak(&mut r1, &b, White, SearchValue::Leaf(Eval::Material));
        let m2 = search_with_tiebreak(&mut r2, &b, White, SearchValue::Leaf(Eval::Material));
        assert_eq!(m1, m2);
    }
}

// Exact evaluator values on a small position.
#[test]
fn evaluator_values() {
    let b = bb("
	. . . . R . . k
	. . . . R . . .
	. . . . . . . .
	. . . . . . . .
	. . . . . . . .
	. . . . . . . .
	. . . . . . . .
	. . . . . . . K
	");
    assert_eq!(material_value(&b, White), 10);
    assert_eq!(material_value(&b, Black), -10);

    let start = BitBoard::starting_position();
    assert_eq!(material_value(&start, White), 0);
    assert_eq!(basic_value(&start, White), -basic_value(&start, Black));
}

// Each parse error variant comes from a matching malformed input.
#[test]
fn parse_errors() {
    assert_eq!(
        BitBoard::from_str("x\nx\nx\nx\nx\nx\nx\nx\nx\n").unwrap_err(),
        ParseError::TooManyLines,
    );
    assert_eq!(
        BitBoard::from_str("rnbqkbnrr\n").unwrap_err(),
        ParseError::ColOutOfRange,
    );
    assert_eq!(
        BitBoard::from_str("rnbqkbnr\npppppppp\n").unwrap_err(),
        ParseError::NotEnoughLines,
    );
    assert_eq!(
        Move::from_str("Pb2").unwrap_err(),
        ParseError::MoveSyntax,
    );
    assert_eq!(
        Move::from_str("Pz2c3").unwrap_err(),
        ParseError::InvalidPos,
    );
    assert_eq!(
        Move::from_str("Zb2c3").unwrap_err(),
        ParseError::InvalidPiece,
    );
    assert_eq!(
        parse_engine("no-such-engine").unwrap_err(),
        ParseError::UnknownEngine,
    );
    assert_eq!(parse_engine("valid").unwrap(), EngineKind::Valid);
    assert_eq!(
        parse_engine("alphabeta3-material").unwrap(),
        EngineKind::AlphaBeta(3, Eval::Material),
    );
}

// The seed mixer really mixes: different inputs give different digests and
// never just hand an argument back.
#[test]
fn seed_mixer() {
    let a = bitboard::util::rand(17, 23);
    let b = bitboard::util::rand(17, 24);
    let c = bitboard::util::rand(18, 23);
    assert_ne!(a, b);
    assert_ne!(a, c);
    // not the identity on its key
    assert_ne!(a, 17);
    // deterministic
    assert_eq!(bitboard::util::rand(17, 23), a);
}
