use bitboard::pos::{delta, pos};

#[test]
fn row_col() {
    assert_eq!(pos(3, 4).row(), 3);
    assert_eq!(pos(3, 4).col(), 4);
}

#[test]
fn add() {
    assert_eq!(pos(3, 5).offset(delta(1, 0)), pos(4, 5));
    assert_eq!(pos(2, 6).offset(delta(0, 1)), pos(2, 7));
    assert_eq!(pos(2, 6).offset(delta(0, -1)), pos(2, 5));
    assert_eq!(pos(3, 7).offset(delta(0, -7)), pos(3, 0));
    assert_eq!(pos(2, 6).offset(delta(-1, 0)), pos(1, 6));
    assert_eq!(pos(7, 4).offset(delta(-7, 0)), pos(0, 4));
    assert_eq!(pos(4, 5).offset(delta(-1, -3)), pos(3, 2));
    assert_eq!(pos(7, 7).offset(delta(-7, -7)), pos(0, 0));
}

#[test]
fn is_valid() {
    assert_eq!(pos(0, 0).is_valid(), true);
    assert_eq!(pos(0, 7).is_valid(), true);
    assert_eq!(pos(7, 0).is_valid(), true);
    assert_eq!(pos(7, 7).is_valid(), true);

    assert_eq!(pos(0, 0).offset(delta(1, 2)).is_valid(), true);
    assert_eq!(pos(0, 0).offset(delta(-1, 0)).is_valid(), false);
    assert_eq!(pos(0, 0).offset(delta(0, -1)).is_valid(), false);
    assert_eq!(pos(0, 0).offset(delta(-1, -1)).is_valid(), false);
    assert_eq!(pos(7, 2).offset(delta(0, -3)).is_valid(), false);
    assert_eq!(pos(3, 6).offset(delta(0, 2)).is_valid(), false);
    assert_eq!(pos(4, 2).offset(delta(4, 0)).is_valid(), false);
}
