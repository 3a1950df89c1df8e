use bitboard::arrayboard::ArrayBoard;
use bitboard::piece::Piece::WPawn;
use bitboard::pos::pos;

#[test]
fn arrayboard_set() {
    let mut b = ArrayBoard::new();
    b.set(pos(1, 2), WPawn);

    assert_eq!(
        b.to_string(),
        r"
8 . . . . . . . .
7 . . . . . . . .
6 . . . . . . . .
5 . . . . . . . .
4 . . . . . . . .
3 . . . . . . . .
2 . . P . . . . .
1 . . . . . . . .
  a b c d e f g h"
    );
}
