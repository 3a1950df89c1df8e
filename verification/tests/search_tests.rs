use std::str::FromStr;

use bitboard::alphabeta::alphabeta;
use bitboard::bitboard::BitBoard;
use bitboard::color::Color::{Black, White};
use bitboard::negamax::{negamax, INF};
use bitboard::piece_value::Eval;

fn board(board: &str) -> BitBoard {
    BitBoard::from_str(board).unwrap()
}

#[test]
fn test_negamax_mate() {
    let board = board(
        r"
		. . . . R . . k
		. . . . R . . .
		. . . . . . . .
		. . . . . . . .
		. . . . . . . .
		. . . . . . . .
		. . . . . . . .
		. . . . . . . K
		",
    );

    assert_eq!(negamax(&board, White, Eval::Material, 0), 10);
    assert_eq!(negamax(&board, Black, Eval::Material, 0), -10);

    assert_eq!(negamax(&board, White, Eval::Material, 1), INF);
    // black is mated: every reply still leaves the king under attack, and
    // the loss sentinel is adjusted by the two plies of remaining depth
    assert_eq!(negamax(&board, Black, Eval::Material, 2), -INF - 2);
}

#[test]
fn test_negamax_1() {
    let board = board(
        r"
		. . . . . . . .
		. . . . . p . .
		. . . . p . . .
		. . . . . . . .
		. . . . . . . .
		. . . . Q . . .
		. . . . . . . .
		k . . . . . . K
		",
    );

    assert_eq!(negamax(&board, White, Eval::Material, 0), 7);
    assert_eq!(negamax(&board, Black, Eval::Material, 0), -7);

    assert_eq!(negamax(&board, White, Eval::Material, 1), 8); // white greedily takes a pawn
    assert_eq!(negamax(&board, Black, Eval::Material, 1), -7);

    assert_eq!(negamax(&board, White, Eval::Material, 2), 7); // white sees that the pawn is protected
}

#[test]
fn test_negamax_2() {
    let board = board(
        r"
		Q . . p p p . k
		. . . . . . . .
		. . . . . . . .
		. . . . . . . .
		. . . . . . . .
		. . . . . . . .
		. . . . . . . .
		. . . . . . . K
		",
    );

    assert_eq!(negamax(&board, White, Eval::Material, 0), 6);
    assert_eq!(negamax(&board, Black, Eval::Material, 0), -6);

    assert_eq!(negamax(&board, White, Eval::Material, 1), 7);
    assert_eq!(negamax(&board, Black, Eval::Material, 1), -6);

    assert_eq!(negamax(&board, White, Eval::Material, 2), 7);
    assert_eq!(negamax(&board, Black, Eval::Material, 2), -7);

    assert_eq!(negamax(&board, White, Eval::Material, 3), 8);
    assert_eq!(negamax(&board, Black, Eval::Material, 3), -7);

    assert_eq!(negamax(&board, White, Eval::Material, 4), 8);
    assert_eq!(negamax(&board, Black, Eval::Material, 4), -8);
}

#[test]
fn test_negamax_3() {
    let board = board(
        r"
		. . . . . . . k
		. . . . . . . .
		. . . . . . . .
		. . . . . . . .
		. . . . . . . .
		. . . . . . . .
		. . . . . . . .
		q . . P P P . K
		",
    );

    assert_eq!(negamax(&board, Black, Eval::Material, 0), 6);
    assert_eq!(negamax(&board, White, Eval::Material, 0), -6);

    assert_eq!(negamax(&board, Black, Eval::Material, 1), 7);
    assert_eq!(negamax(&board, White, Eval::Material, 1), -6);

    assert_eq!(negamax(&board, Black, Eval::Material, 2), 7);
    assert_eq!(negamax(&board, White, Eval::Material, 2), -7);

    assert_eq!(negamax(&board, Black, Eval::Material, 3), 8);
    assert_eq!(negamax(&board, White, Eval::Material, 3), -7);

    assert_eq!(negamax(&board, Black, Eval::Material, 4), 8);
    assert_eq!(negamax(&board, White, Eval::Material, 4), -8);
}

#[test]
fn test_alphabeta_mate() {
    let board = board(
        r"
		. . . . R . . k
		. . . . R . . .
		. . . . . . . .
		. . . . . . . .
		. . . . . . . .
		. . . . . . . .
		. . . . . . . .
		. . . . . . . K
		",
    );

    assert_eq!(alphabeta(&board, White, Eval::Material, 0), 10);
    assert_eq!(alphabeta(&board, Black, Eval::Material, 0), -10);

    assert_eq!(alphabeta(&board, White, Eval::Material, 1), INF);
}

#[test]
fn test_alpahbeta_1() {
    let board = board(
        r"
		. . . . . . . .
		. . . . . p . .
		. . . . p . . .
		. . . . . . . .
		. . . . . . . .
		. . . . Q . . .
		. . . . . . . .
		k . . . . . . K
		",
    );

    assert_eq!(alphabeta(&board, White, Eval::Material, 0), 7);
    assert_eq!(alphabeta(&board, Black, Eval::Material, 0), -7);

    assert_eq!(alphabeta(&board, White, Eval::Material, 1), 8); // white greedily takes a pawn
    assert_eq!(alphabeta(&board, Black, Eval::Material, 1), -7);

    assert_eq!(alphabeta(&board, White, Eval::Material, 2), 7); // white sees that the pawn is protected
}

#[test]
fn test_alphabeta_2() {
    let board = board(
        r"
		Q . . p p p . k
		. . . . . . . .
		. . . . . . . .
		. . . . . . . .
		. . . . . . . .
		. . . . . . . .
		. . . . . . . .
		. . . . . . . K
		",
    );

    assert_eq!(alphabeta(&board, White, Eval::Material, 0), 6);
    assert_eq!(alphabeta(&board, Black, Eval::Material, 0), -6);

    assert_eq!(alphabeta(&board, White, Eval::Material, 1), 7);
    assert_eq!(alphabeta(&board, Black, Eval::Material, 1), -6);

    assert_eq!(alphabeta(&board, White, Eval::Material, 2), 7);
    assert_eq!(alphabeta(&board, Black, Eval::Material, 2), -7);

    assert_eq!(alphabeta(&board, White, Eval::Material, 3), 8);
    assert_eq!(alphabeta(&board, Black, Eval::Material, 3), -7);

    assert_eq!(alphabeta(&board, White, Eval::Material, 4), 8);
    assert_eq!(alphabeta(&board, Black, Eval::Material, 4), -8);
}

#[test]
fn test_alphabeta_3() {
    let board = board(
        r"
		. . . . . . . k
		. . . . . . . .
		. . . . . . . .
		. . . . . . . .
		. . . . . . . .
		. . . . . . . .
		. . . . . . . .
		q . . P P P . K
		",
    );

    assert_eq!(alphabeta(&board, Black, Eval::Material, 0), 6);
    assert_eq!(alphabeta(&board, White, Eval::Material, 0), -6);

    assert_eq!(alphabeta(&board, Black, Eval::Material, 1), 7);
    assert_eq!(alphabeta(&board, White, Eval::Material, 1), -6);

    assert_eq!(alphabeta(&board, Black, Eval::Material, 2), 7);
    assert_eq!(alphabeta(&board, White, Eval::Material, 2), -7);

    assert_eq!(alphabeta(&board, Black, Eval::Material, 3), 8);
    assert_eq!(alphabeta(&board, White, Eval::Material, 3), -7);

    assert_eq!(alphabeta(&board, Black, Eval::Material, 4), 8);
    assert_eq!(alphabeta(&board, White, Eval::Material, 4), -8);
}
