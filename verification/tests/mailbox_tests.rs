use std::str::FromStr;

use bitboard::color::Color::{Black, White};
use bitboard::mailbox::Mailbox;
use bitboard::parser::parse_positions;
use bitboard::pos::{pos, Pos};
use bitboard::square::Square;
use bitboard::square::Square::{BKing, BPawn, BQueen, BRook, WKing, WPawn, WQueen, WRook};

type PosSet<T> = fnv::FnvHashSet<T>;

fn mb(board: &str) -> Mailbox {
    Mailbox::from_str(board).unwrap()
}

// check the moves for all pieces of given type,
// by comparing to a stringified board where destinations are marked with `x`.
fn check_all_moves(piece: Square, board: &str, want: &str) {
    let board = mb(board);
    let mut have: PosSet<Pos> = PosSet::default();
    for (pos, p) in board.iter() {
        if p == piece {
            have.extend(board.dests_for(pos));
        }
    }
    check_moves_(&board, have, want)
}

// check the moves for piece at `pos`,
// by comparing to a stringified board where destinations are marked with `x`.
fn check_moves(pos: Pos, board: &str, want: &str) {
    let board = mb(board);
    let have: PosSet<Pos> = board.dests_for(pos).into_iter().collect();
    check_moves_(&board, have, want)
}

fn check_moves_(_board: &Mailbox, have: PosSet<Pos>, want: &str) {
    for pos in &have {
        assert!(pos.is_valid());
    }
    let want: PosSet<Pos> = parse_positions(want).unwrap().into_iter().collect();
    assert_eq!(have, want);
}

#[test]
fn mailbox_test_test_check() {
    let b1 = mb(r"
		. . . k . . . .
		. . . . . . . .
		. . . . . . . .
		. . . . . . . .
		. . . . . . . .
		. . . . . . . .
		. r . . . . . .
		. . r . . . . K
		");
    assert_eq!(b1.is_check(White), true);
    assert_eq!(b1.is_check(Black), false);
    assert_eq!(b1.is_mate(White), true);
    assert_eq!(b1.is_mate(Black), false);
}

#[test]
fn mailbox_test_king_moves() {
    check_all_moves(
        BKing,
        r"
		. . . . . . . .
		. . . . . . . .
		. . . . . . . .
		. . . . . . . .
		. . . . . . . .
		. . . . . . . .
		. . . . . . . .
		. . . . . . . k
		",
        r"
		. . . . . . . .
		. . . . . . . .
		. . . . . . . .
		. . . . . . . .
		. . . . . . . .
		. . . . . . . .
		. . . . . . x x
		. . . . . . x k
		",
    );
    check_all_moves(
        WKing,
        r"
		K . . . . . . .
		. . . . . . . .
		. . . . . . . .
		. . . . . . . .
		. . . . . . . .
		. . . . . . . .
		. . . . . . . .
		. . . . . . . .
		",
        r"
		K x . . . . . .
		x x . . . . . .
		. . . . . . . .
		. . . . . . . .
		. . . . . . . .
		. . . . . . . .
		. . . . . . . .
		. . . . . . . .
		",
    );
    check_all_moves(
        WKing,
        r"
		. . . . . . . .
		. . . . . . . .
		. . . . . . . .
		. . . . . . . .
		. . K . . . . .
		. . . . . . . .
		. . . . . . . .
		. . . . . . . .
		",
        r"
		. . . . . . . .
		. . . . . . . .
		. . . . . . . .
		. x x x . . . .
		. x K x . . . .
		. x x x . . . .
		. . . . . . . .
		. . . . . . . .
		",
    );
}

#[test]
fn mailbox_test_knight_moves() {
}

#[test]
fn queen_moves() {
    check_all_moves(
        WQueen,
        r"
		. . . . . . . .
		. . . . . . . .
		. . . . . . p .
		. . . . . . . .
		. P . . Q . . .
		. . . . . . . .
		. . . . . . . .
		. . . . . . . .
		",
        r"
		x . . . x . . .
		. x . . x . . .
		. . x . x . x .
		. . . x x x . .
		. P x x Q x x x
		. . . x x x . .
		. . x . x . x .
		. x . . x . . x
		",
    );
}

#[test]
fn mailbox_test_rook_moves() {
    check_all_moves(
        BRook,
        r"
		. . . . . . . r
		. . . . . . . .
		. . Q . . . . .
		. . . . . . . Q
		. . . . . . . .
		. . r . . . . .
		. . . . . . . .
		. . . . . . . .
		",
        r"
		x x x x x x x r
		. . . . . . . x
		. . x . . . . x
		. . x . . . . x
		. . x . . . . .
		x x r x x x x x
		. . x . . . . .
		. . x . . . . .
		",
    );
    check_all_moves(
        WRook,
        r"
		. . . . . . . .
		. . . . . . . .
		. . . . . . . .
		. . . . . . . .
		. . . . . . . .
		. . . . . . . .
		. . . . . . . .
		R . . . . . . .
		",
        r"
		x . . . . . . .
		x . . . . . . .
		x . . . . . . .
		x . . . . . . .
		x . . . . . . .
		x . . . . . . .
		x . . . . . . .
		R x x x x x x x
		",
    );
}

#[test]
fn bpawn_moves() {
    check_all_moves(
        BPawn,
        r"
		. . . . . . . .
		p . p . . . . .
		. . . . p . . .
		Q Q p Q . . . .
		. . . . . p . .
		. . . . . p . .
		. . . . Q . . p
		p . . . . . p p
		",
        r"
		. . . . . . . .
		p . p . . . . .
		x . x . p . . .
		Q Q p x x . . .
		. . x . . p . .
		. . . . . p . .
		. . . . x x . p
		p . . . . . p p
		",
    );
}

#[test]
fn wpawn_moves() {
    check_moves(
        pos(1, 2),
        r"
		. . . . . . . .
		. . . . . . . .
		. . . . . . . .
		. . . . . . . .
		. . . . . . . .
		. . . r . . . .
		. . P . . . . .
		. . . . . . . .
		",
        r"
		. . . . . . . .
		. . . . . . . .
		. . . . . . . .
		. . . . . . . .
		. . x . . . . .
		. . x x . . . .
		. . P . . . . .
		. . . . . . . .
		",
    );

    check_all_moves(
        WPawn,
        r"
		. . . . . . . P
		. . . . . . . .
		. . . R . . . .
		. . . P r . . .
		r . . . . P . .
		P . r . . . . .
		. . P . . . . P
		. . . . . . . .
		",
        r"
		. . . . . . . P
		. . . . . . . .
		. . . R . . . .
		. . . P x x . .
		r . . . . P . x
		P . r . . . . x
		. . P . . . . P
		. . . . . . . .
		",
    );
}

#[test]
fn mailbox_test_set() {
    let mut b = Mailbox::new();
    b.set(pos(1, 2), WPawn);

    assert_eq!(
        b.to_string(),
        r"
8 . . . . . . . .
7 . . . . . . . .
6 . . . . . . . .
5 . . . . . . . .
4 . . . . . . . .
3 . . . . . . . .
2 . . P . . . . .
1 . . . . . . . .
  a b c d e f g h"
    );
}

#[test]
fn from_str() {
    let b = mb(r"
rnbqkbnr
pppppppp
........
........
........
........
PPPPPPPP
RNBQKBNR
");
    assert_eq!(b.at(pos(0, 7)), WRook);
    assert_eq!(b.at(pos(1, 0)), WPawn);
    assert_eq!(b.at(pos(7, 3)), BQueen);
}

#[test]
fn from_str_err() {
    let b = Mailbox::from_str(
        r"
rnbqkbnr
pppppppp
........
........
........
PPPPPPPP
RNBQKBNR
",
    );
    assert!(b.is_err())
}
