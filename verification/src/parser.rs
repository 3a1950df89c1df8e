use vstd::prelude::*;
use vstd::std_specs::iter::IteratorSpec;
use crate::board::Board;
use crate::pos::Pos;
use crate::square::Square;

verus! {

broadcast use vstd::string::axiom_spec_iter, vstd::string::next_postcondition;

/// Why a board or move text was rejected.
#[derive(Clone, Copy, PartialEq, Eq, Structural, Debug)]
pub enum ParseError {
    TooManyLines,
    ColOutOfRange,
    NotEnoughLines,
    InvalidPiece,
    MoveSyntax,
    InvalidPos,
    UnknownEngine,
}

/// The characters of `s`, as a vector.
pub fn str_chars(s: &str) -> (r: Vec<char>)
    ensures
        r@ == s@,
{
    let mut it = s.chars();
    let mut r: Vec<char> = Vec::new();
    loop
        invariant
            it.obeys_prophetic_iter_laws(),
            it.decrease() is Some,
            r@ + it.remaining() == s@,
        decreases it.decrease()->0,
    {
        match it.next() {
            Some(c) => {
                r.push(c);
                proof {
                    assert(r@ + it.remaining() =~= s@);
                }
            },
            None => {
                proof {
                    assert(r@ =~= s@);
                }
                return r;
            },
        }
    }
}

/// The square whose letter is `c`, if `c` is a piece letter or the dot.
pub open spec fn char_square(c: char) -> Option<Square> {
    if c == '.' {
        Some(Square::Empty)
    } else if c == 'P' {
        Some(Square::WPawn)
    } else if c == 'R' {
        Some(Square::WRook)
    } else if c == 'N' {
        Some(Square::WKnight)
    } else if c == 'B' {
        Some(Square::WBisshop)
    } else if c == 'Q' {
        Some(Square::WQueen)
    } else if c == 'K' {
        Some(Square::WKing)
    } else if c == 'p' {
        Some(Square::BPawn)
    } else if c == 'r' {
        Some(Square::BRook)
    } else if c == 'n' {
        Some(Square::BKnight)
    } else if c == 'b' {
        Some(Square::BBisshop)
    } else if c == 'q' {
        Some(Square::BQueen)
    } else if c == 'k' {
        Some(Square::BKing)
    } else {
        None
    }
}

/// Plain board text: eight lines of eight piece letters, each line closed
/// by a newline, top rank first.
pub open spec fn is_board_text(s: Seq<char>) -> bool {
    s.len() == 72 && (forall|k: int|
        0 <= k < 72 ==> (if k % 9 == 8 {
            s[k] == '\n'
        } else {
            char_square(#[trigger] s[k]) is Some
        }))
}

/// The square that plain board text puts on row-major square `i`.
pub open spec fn text_square(s: Seq<char>, i: int) -> Square {
    char_square(s[(7 - i / 8) * 9 + i % 8])->0
}

/// A space, tab or carriage return: ignored wherever it stands in a line.
pub open spec fn is_blank(c: char) -> bool {
    c == ' ' || c == '\t' || c == '\r'
}

/// A cell character: anything that is neither blank nor a line break.
pub open spec fn is_cell(c: char) -> bool {
    c != '\n' && !is_blank(c)
}

/// Scanner state after the first `n` characters: how many non-blank lines
/// are complete, and how many cells the current line holds so far. Blank
/// characters change nothing; a line break closes the line when it held at
/// least one cell. The counts are not clamped.
pub open spec fn scan(s: Seq<char>, n: int) -> (int, int)
    decreases n,
{
    if n <= 0 {
        (0, 0)
    } else {
        let (i, j) = scan(s, n - 1);
        let c = s[n - 1];
        if c == '\n' {
            if j > 0 {
                (i + 1, 0)
            } else {
                (i, 0)
            }
        } else if is_blank(c) {
            (i, j)
        } else {
            (i, j + 1)
        }
    }
}

/// No cell among the first `n` characters falls beyond the eighth line or
/// the eighth column.
pub open spec fn in_bounds(s: Seq<char>, n: int) -> bool {
    forall|m: int|
        0 <= m < n && is_cell(s[m]) ==> (#[trigger] scan(s, m)).0 < 8 && scan(s, m).1 < 8
}

/// How many non-blank lines the whole text holds.
pub open spec fn line_count(s: Seq<char>) -> int {
    let (i, j) = scan(s, s.len() as int);
    i + if j > 0 {
        1int
    } else {
        0int
    }
}

/// The texts the character-board reader accepts: blank lines and blanks
/// within lines ignored, no line or column overflows, and exactly eight
/// non-blank lines.
pub open spec fn accepts_charboard(s: Seq<char>) -> bool {
    in_bounds(s, s.len() as int) && line_count(s) == 8
}

/// The board cell that the character at `m` fills: its line counted from
/// the top rank, its column from the left.
pub open spec fn cell_index(s: Seq<char>, m: int) -> int {
    (7 - scan(s, m).0) * 8 + scan(s, m).1
}

/// Some cell character among the first `n` fills board cell `idx`.
pub open spec fn has_cell_upto(s: Seq<char>, n: int, idx: int) -> bool {
    exists|m: int| 0 <= m < n && is_cell(s[m]) && #[trigger] cell_index(s, m) == idx
}

/// Some cell character of `s` fills board cell `idx`.
pub open spec fn has_cell(s: Seq<char>, idx: int) -> bool {
    has_cell_upto(s, s.len() as int, idx)
}

/// The first overflowing cell: every earlier cell fits, this one does not.
pub open spec fn first_overflow(s: Seq<char>, m: int) -> bool {
    0 <= m < s.len() && is_cell(s[m]) && in_bounds(s, m) && (scan(s, m).0 >= 8 || scan(s, m).1
        >= 8)
}

/// The texts the board reader accepts: a well-shaped character board whose
/// 64 cells are all filled, each with a piece letter or the dot.
pub open spec fn accepts_board(s: Seq<char>) -> bool {
    accepts_charboard(s) && (forall|m: int|
        0 <= m < s.len() && is_cell(#[trigger] s[m]) ==> char_square(s[m]) is Some) && (forall|
        idx: int,
    | 0 <= idx < 64 ==> has_cell(s, idx))
}

/// The scanner's counters never go negative.
proof fn lemma_scan_nonneg(s: Seq<char>, n: int)
    ensures
        scan(s, n).0 >= 0,
        scan(s, n).1 >= 0,
    decreases n,
{
    if n > 0 {
        lemma_scan_nonneg(s, n - 1);
    }
}

/// The scanner never moves backwards, and moves strictly past a cell.
proof fn lemma_scan_mono(s: Seq<char>, a: int, b: int)
    requires
        0 <= a <= b,
    ensures
        scan(s, a).0 <= scan(s, b).0,
        scan(s, a).0 == scan(s, b).0 ==> scan(s, a).1 <= scan(s, b).1,
    decreases b - a,
{
    if a < b {
        lemma_scan_mono(s, a, b - 1);
    }
}

/// Two in-bounds cells fill two different board cells.
proof fn lemma_cells_distinct(s: Seq<char>, m1: int, m2: int)
    requires
        0 <= m1 < m2,
        is_cell(s[m1]),
        is_cell(s[m2]),
        scan(s, m1).0 < 8 && scan(s, m1).1 < 8,
        scan(s, m2).0 < 8 && scan(s, m2).1 < 8,
    ensures
        cell_index(s, m1) != cell_index(s, m2),
{
    lemma_scan_nonneg(s, m1);
    lemma_scan_nonneg(s, m2);
    assert(scan(s, m1 + 1).0 == scan(s, m1).0 && scan(s, m1 + 1).1 == scan(s, m1).1 + 1);
    lemma_scan_mono(s, m1 + 1, m2);
}

/// On plain 72-character board text the scanner walks lines of nine: eight
/// cells and the closing line break.
proof fn lemma_scan_canonical(s: Seq<char>, m: int)
    requires
        is_board_text(s),
        0 <= m <= 72,
    ensures
        scan(s, m) == ((m / 9, m % 9)),
    decreases m,
{
    if m > 0 {
        lemma_scan_canonical(s, m - 1);
        vstd::arithmetic::div_mod::lemma_fundamental_div_mod(m - 1, 9);
        vstd::arithmetic::div_mod::lemma_fundamental_div_mod(m, 9);
        if (m - 1) % 9 == 8 {
            assert(s[m - 1] == '\n');
        } else {
            assert(char_square(s[m - 1]) is Some);
            assert(is_cell(s[m - 1]));
        }
    }
}

/// Plain board text is accepted, cell by cell: character `(7 - r) * 9 + c`
/// fills board cell `r * 8 + c`.
pub proof fn lemma_canonical_accepts(s: Seq<char>)
    requires
        is_board_text(s),
    ensures
        accepts_board(s),
        forall|m: int|
            0 <= m < 72 && m % 9 < 8 ==> is_cell(#[trigger] s[m]) && cell_index(s, m) == (7 - m
                / 9) * 8 + m % 9,
        forall|m: int| 0 <= m < 72 && m % 9 == 8 ==> !is_cell(#[trigger] s[m]),
{
    assert forall|m: int| 0 <= m <= 72 implies #[trigger] scan(s, m) == ((m / 9, m % 9)) by {
        lemma_scan_canonical(s, m);
    }
    assert forall|m: int| 0 <= m < 72 && m % 9 < 8 implies is_cell(#[trigger] s[m])
        && cell_index(s, m) == (7 - m / 9) * 8 + m % 9 by {
        assert(char_square(s[m]) is Some);
    }
    assert forall|m: int| 0 <= m < 72 && m % 9 == 8 implies !is_cell(#[trigger] s[m]) by {
        assert(s[m] == '\n');
    }
    assert forall|m: int| 0 <= m < 72 && is_cell(s[m]) implies (#[trigger] scan(s, m)).0 < 8
        && scan(s, m).1 < 8 by {
        vstd::arithmetic::div_mod::lemma_fundamental_div_mod(m, 9);
        if m % 9 == 8 {
            assert(s[m] == '\n');
        }
    }
    assert(scan(s, 72) == ((8int, 0int)));
    assert(line_count(s) == 8);
    assert forall|idx: int| 0 <= idx < 64 implies has_cell(s, idx) by {
        let m = (7 - idx / 8) * 9 + idx % 8;
        vstd::arithmetic::div_mod::lemma_fundamental_div_mod(idx, 8);
        vstd::arithmetic::div_mod::lemma_fundamental_div_mod_converse(m, 9, 7 - idx / 8, idx % 8);
        assert(is_cell(s[m]) && cell_index(s, m) == idx);
    }
}

/// Read a character board from text: lines top rank first, blanks within
/// lines and blank lines ignored, each cell character filling the next
/// cell of its line. Accepts exactly the texts `accepts_charboard` names;
/// an overflow or a missing line is always surfaced as an error.
pub fn parse_charboard(s: &str) -> (r: Result<Vec<char>, ParseError>)
    ensures
        r is Ok <==> accepts_charboard(s@),
        r matches Ok(cb) ==> cb@.len() == 64 && (forall|m: int|
            0 <= m < s@.len() && is_cell(s@[m]) ==> cb@[#[trigger] cell_index(s@, m)] == s@[m])
            && (forall|idx: int| 0 <= idx < 64 && !has_cell(s@, idx) ==> cb@[idx] == ' '),
        r matches Err(e) ==> (e == ParseError::TooManyLines || e == ParseError::ColOutOfRange
            || e == ParseError::NotEnoughLines) && (e == ParseError::TooManyLines ==> exists|
            m: int,
        | #[trigger] first_overflow(s@, m) && scan(s@, m).0 >= 8) && (e
            == ParseError::ColOutOfRange ==> exists|m: int|
            #[trigger] first_overflow(s@, m) && scan(s@, m).0 < 8) && (e
            == ParseError::NotEnoughLines ==> in_bounds(s@, s@.len() as int) && line_count(s@)
            < 8),
        is_board_text(s@) ==> (r matches Ok(cb) && forall|i: int|
            0 <= i < 64 ==> cb@[i] == s@[(7 - i / 8) * 9 + i % 8]),
{
    let cs = str_chars(s);
    let mut board: Vec<char> = Vec::new();
    let mut z: usize = 0;
    while z < 64
        invariant
            board@.len() == z,
            z <= 64,
            forall|i: int| 0 <= i < z ==> board@[i] == ' ',
        decreases 64 - z,
    {
        board.push(' ');
        z += 1;
    }
    let mut i: usize = 0;
    let mut j: usize = 0;
    let mut k: usize = 0;
    while k < cs.len()
        invariant
            cs@ == s@,
            k <= cs@.len(),
            board@.len() == 64,
            in_bounds(s@, k as int),
            i as int == scan(s@, k as int).0,
            j as int == scan(s@, k as int).1,
            i <= 8,
            j <= 8,
            i >= 8 ==> j == 0,
            forall|m: int|
                0 <= m < k && is_cell(s@[m]) ==> board@[#[trigger] cell_index(s@, m)] == s@[m],
            forall|idx: int|
                0 <= idx < 64 && !has_cell_upto(s@, k as int, idx) ==> board@[idx] == ' ',
        decreases cs@.len() - k,
    {
        let c = cs[k];
        let ghost pre = board@;
        if c == '\n' {
            if j > 0 {
                i += 1;
                j = 0;
            }
        } else if c == ' ' || c == '\t' || c == '\r' {
        } else {
            proof {
                assert(is_cell(s@[k as int]));
            }
            if i >= 8 {
                proof {
                    assert(first_overflow(s@, k as int) && scan(s@, k as int).0 >= 8);
                    assert(!in_bounds(s@, s@.len() as int));
                    if is_board_text(s@) {
                        lemma_canonical_accepts(s@);
                    }
                }
                return Err(ParseError::TooManyLines);
            }
            if j >= 8 {
                proof {
                    assert(first_overflow(s@, k as int) && scan(s@, k as int).0 < 8);
                    assert(!in_bounds(s@, s@.len() as int));
                    if is_board_text(s@) {
                        lemma_canonical_accepts(s@);
                    }
                }
                return Err(ParseError::ColOutOfRange);
            }
            let idx = (7 - i) * 8 + j;
            proof {
                assert(idx == cell_index(s@, k as int));
            }
            board[idx] = c;
            j += 1;
            proof {
                assert forall|m: int| 0 <= m < k + 1 && is_cell(s@[m]) implies board@[
                #[trigger] cell_index(s@, m)] == s@[m] by {
                    if m < k {
                        lemma_scan_nonneg(s@, m);
                        assert(0 <= cell_index(s@, m) < 64);
                        lemma_cells_distinct(s@, m, k as int);
                        assert(cell_index(s@, m) != idx as int);
                        assert(board@[cell_index(s@, m)] == pre[cell_index(s@, m)]);
                        assert(pre[cell_index(s@, m)] == s@[m]);
                    } else {
                        assert(cell_index(s@, m) == idx as int);
                        assert(board@[idx as int] == c);
                        assert(s@[m] == c);
                    }
                }
                assert forall|idx2: int|
                    0 <= idx2 < 64 && !has_cell_upto(s@, k as int + 1, idx2) implies board@[idx2]
                    == ' ' by {
                    assert(!has_cell_upto(s@, k as int, idx2));
                    assert(idx2 != idx) by {
                        if idx2 == idx {
                            assert(cell_index(s@, k as int) == idx2);
                        }
                    }
                }
            }
        }
        k += 1;
        proof {
            assert forall|idx2: int|
                0 <= idx2 < 64 && !has_cell_upto(s@, k as int, idx2) implies !has_cell_upto(
                s@,
                k as int - 1,
                idx2,
            ) by {}
        }
    }
    if j > 0 {
        i += 1;
    }
    proof {
        assert(i as int == line_count(s@));
    }
    if i != 8 {
        proof {
            if is_board_text(s@) {
                lemma_canonical_accepts(s@);
            }
        }
        return Err(ParseError::NotEnoughLines);
    }
    proof {
        assert(accepts_charboard(s@));
        if is_board_text(s@) {
            lemma_canonical_accepts(s@);
            assert forall|i2: int| 0 <= i2 < 64 implies board@[i2] == s@[(7 - i2 / 8) * 9 + i2
                % 8] by {
                let m = (7 - i2 / 8) * 9 + i2 % 8;
                vstd::arithmetic::div_mod::lemma_fundamental_div_mod(i2, 8);
                vstd::arithmetic::div_mod::lemma_fundamental_div_mod_converse(
                    m,
                    9,
                    7 - i2 / 8,
                    i2 % 8,
                );
                assert(is_cell(s@[m]) && cell_index(s@, m) == i2);
                assert(board@[cell_index(s@, m)] == s@[m]);
            }
        }
    }
    Ok(board)
}

/// Parse a board from its text notation: a well-shaped character board
/// whose 64 cells are all filled with piece letters or dots. Accepts
/// exactly the texts `accepts_board` names; anything else is surfaced as a
/// parse error, never recovered silently.
#[verifier::rlimit(80)]
#[verifier::spinoff_prover]
pub fn parse_board(s: &str) -> (r: Result<Board, ParseError>)
    ensures
        r is Ok <==> accepts_board(s@),
        r matches Ok(b) ==> b.wf() && (forall|m: int|
            0 <= m < s@.len() && is_cell(s@[m]) ==> b.at_spec(
                (#[trigger] cell_index(s@, m)) as u64,
            ) == char_square(s@[m])->0),
        r matches Err(e) ==> (e == ParseError::InvalidPiece <==> accepts_charboard(s@)) && (e
            == ParseError::NotEnoughLines ==> in_bounds(s@, s@.len() as int) && line_count(s@)
            < 8) && (e == ParseError::TooManyLines || e == ParseError::ColOutOfRange ==> exists|
            m: int,
        | #[trigger] first_overflow(s@, m)),
        is_board_text(s@) ==> (r matches Ok(b) && forall|i: u64|
            i < 64 ==> b.at_spec(i) == text_square(s@, i as int)),
{
    let cb = match parse_charboard(s) {
        Ok(cb) => cb,
        Err(e) => {
            return Err(e);
        },
    };
    let mut b = Board::new();
    let mut i: usize = 0;
    while i < 64
        invariant
            accepts_charboard(s@),
            cb@.len() == 64,
            forall|m: int|
                0 <= m < s@.len() && is_cell(s@[m]) ==> cb@[#[trigger] cell_index(s@, m)]
                    == s@[m],
            forall|idx: int| 0 <= idx < 64 && !has_cell(s@, idx) ==> cb@[idx] == ' ',
            b.wf(),
            i <= 64,
            forall|i2: u64|
                i2 < 64 ==> b.at_spec(i2) == (if i2 < i {
                    char_square(cb@[i2 as int])->0
                } else {
                    Square::Empty
                }),
            forall|i2: int| 0 <= i2 < i ==> char_square(cb@[i2]) is Some,
        decreases 64 - i,
    {
        let c = cb[i];
        let sq = match Square::try_from_char(c) {
            Some(sq) => sq,
            None => {
                proof {
                    assert(char_square(c) is None) by {
                        if char_square(c) is Some {
                            let s0 = char_square(c)->0;
                            assert(s0.to_char_spec() == c);
                        }
                    }
                    lemma_board_not_accepted(s@, cb@, i as int);
                }
                return Err(ParseError::InvalidPiece);
            },
        };
        if sq == Square::OffBoard {
            proof {
                assert(char_square(c) is None) by {
                    assert(sq.to_char_spec() == c);
                }
                lemma_board_not_accepted(s@, cb@, i as int);
            }
            return Err(ParseError::InvalidPiece);
        }
        proof {
            assert(char_square(c) == Some(sq)) by {
                assert(sq.to_char_spec() == c);
            }
        }
        let p = Pos::from_index(i);
        b.set(p, sq);
        i += 1;
    }
    proof {
        lemma_parse_board_ok(s@, cb@, b);
    }
    Ok(b)
}

/// A board built from a well-shaped character board with valid letters is
/// accepted, cell for cell.
#[verifier::spinoff_prover]
proof fn lemma_parse_board_ok(s: Seq<char>, cb: Seq<char>, b: Board)
    requires
        accepts_charboard(s),
        cb.len() == 64,
        forall|m: int|
            0 <= m < s.len() && is_cell(s[m]) ==> cb[#[trigger] cell_index(s, m)] == s[m],
        forall|idx: int| 0 <= idx < 64 && !has_cell(s, idx) ==> cb[idx] == ' ',
        forall|i2: u64| i2 < 64 ==> b.at_spec(i2) == char_square(cb[i2 as int])->0,
        forall|i2: int| 0 <= i2 < 64 ==> char_square(cb[i2]) is Some,
    ensures
        accepts_board(s),
        forall|m: int|
            0 <= m < s.len() && is_cell(s[m]) ==> b.at_spec((#[trigger] cell_index(s, m)) as u64)
                == char_square(s[m])->0,
        is_board_text(s) ==> forall|i: u64| i < 64 ==> b.at_spec(i) == text_square(s, i as int),
{
    assert forall|m: int| 0 <= m < s.len() && is_cell(#[trigger] s[m]) implies char_square(
        s[m],
    ) is Some by {
        lemma_scan_nonneg(s, m);
        assert(0 <= cell_index(s, m) < 64);
        assert(cb[cell_index(s, m)] == s[m]);
    }
    assert forall|m: int| 0 <= m < s.len() && is_cell(s[m]) implies b.at_spec(
        (#[trigger] cell_index(s, m)) as u64,
    ) == char_square(s[m])->0 by {
        lemma_scan_nonneg(s, m);
        assert(0 <= cell_index(s, m) < 64);
        assert(cb[cell_index(s, m)] == s[m]);
        assert(b.at_spec(cell_index(s, m) as u64) == char_square(cb[cell_index(s, m)])->0);
    }
    assert forall|idx: int| 0 <= idx < 64 implies has_cell(s, idx) by {
        if !has_cell(s, idx) {
            assert(cb[idx] == ' ');
            assert(char_square(' ') is None);
        }
    }
    assert(accepts_board(s));
    if is_board_text(s) {
        lemma_parse_board_canonical(s, cb, b);
    }
}

/// On plain board text the parsed board reads back square by square.
#[verifier::spinoff_prover]
proof fn lemma_parse_board_canonical(s: Seq<char>, cb: Seq<char>, b: Board)
    requires
        is_board_text(s),
        cb.len() == 64,
        forall|m: int|
            0 <= m < s.len() && is_cell(s[m]) ==> cb[#[trigger] cell_index(s, m)] == s[m],
        forall|i2: u64| i2 < 64 ==> b.at_spec(i2) == char_square(cb[i2 as int])->0,
    ensures
        forall|i: u64| i < 64 ==> b.at_spec(i) == text_square(s, i as int),
{
    lemma_canonical_accepts(s);
    assert forall|i2: u64| i2 < 64 implies b.at_spec(i2) == text_square(s, i2 as int) by {
        let ii = i2 as int;
        let m = (7 - ii / 8) * 9 + ii % 8;
        vstd::arithmetic::div_mod::lemma_fundamental_div_mod(ii, 8);
        vstd::arithmetic::div_mod::lemma_fundamental_div_mod_converse(m, 9, 7 - ii / 8, ii % 8);
        assert(is_cell(s[m]) && cell_index(s, m) == ii);
        assert(cb[ii] == s[m]);
    }
}

/// A board whose character at cell `i` is no piece letter is not accepted:
/// either no text cell fills `i`, or the one that does is invalid.
proof fn lemma_board_not_accepted(s: Seq<char>, cb: Seq<char>, i: int)
    requires
        accepts_charboard(s),
        cb.len() == 64,
        0 <= i < 64,
        forall|m: int|
            0 <= m < s.len() && is_cell(s[m]) ==> cb[#[trigger] cell_index(s, m)] == s[m],
        forall|idx: int| 0 <= idx < 64 && !has_cell(s, idx) ==> cb[idx] == ' ',
        char_square(cb[i]) is None,
    ensures
        !accepts_board(s),
        !is_board_text(s),
{
    if has_cell(s, i) {
        let m = choose|m: int|
            0 <= m < s.len() && is_cell(s[m]) && #[trigger] cell_index(s, m) == i;
        assert(cb[i] == s[m]);
        assert(!accepts_board(s));
    } else {
        assert(cb[i] == ' ');
        assert(char_square(' ') is None);
        assert(!accepts_board(s));
    }
    if is_board_text(s) {
        lemma_canonical_accepts(s);
    }
}

/// The positions marked `x` in a board-shaped text.
pub fn parse_positions(s: &str) -> (r: Result<Vec<Pos>, ParseError>)
    ensures
        r matches Ok(ps) ==> forall|k: int| 0 <= k < ps@.len() ==> (#[trigger] ps@[k]).valid(),
        is_board_text(s@) ==> (r matches Ok(ps) && forall|p: Pos|
            p.valid() ==> (ps@.contains(p) <==> s@[(7 - p.index_spec() / 8) * 9 + p.index_spec()
                % 8] == 'x')),
{
    let cb = match parse_charboard(s) {
        Ok(cb) => cb,
        Err(e) => {
            proof {
                if is_board_text(s@) {
                    lemma_canonical_accepts(s@);
                }
            }
            return Err(e);
        },
    };
    let mut r: Vec<Pos> = Vec::new();
    let mut i: usize = 0;
    while i < 64
        invariant
            cb@.len() == 64,
            i <= 64,
            is_board_text(s@) ==> forall|i2: int|
                0 <= i2 < 64 ==> cb@[i2] == s@[(7 - i2 / 8) * 9 + i2 % 8],
            forall|k: int|
                0 <= k < r@.len() ==> (#[trigger] r@[k]).valid() && r@[k].index_spec() < i && cb@[
                    r@[k].index_spec()] == 'x',
            forall|p: Pos|
                p.valid() && p.index_spec() < i && cb@[p.index_spec()] == 'x'
                    ==> #[trigger] r@.contains(p),
        decreases 64 - i,
    {
        if cb[i] == 'x' {
            let p = Pos::from_index(i);
            let ghost pre = r@;
            r.push(p);
            proof {
                assert(r@[r@.len() - 1] == p);
                assert forall|q: Pos| pre.contains(q) implies #[trigger] r@.contains(q) by {
                    let k = choose|k: int| 0 <= k < pre.len() && pre[k] == q;
                    assert(r@[k] == q);
                }
                assert forall|q: Pos|
                    q.valid() && q.index_spec() < i + 1 && cb@[q.index_spec()] == 'x'
                        implies #[trigger] r@.contains(q) by {
                    if q.index_spec() == i {
                        crate::pos::lemma_pos_index_inj(q, p);
                    }
                }
            }
        }
        i += 1;
    }
    proof {
        if is_board_text(s@) {
            assert forall|p: Pos|
                p.valid() implies (r@.contains(p) <==> s@[(7 - p.index_spec() / 8) * 9
                + p.index_spec() % 8] == 'x') by {
                crate::pos::lemma_pos_coords(p);
                if r@.contains(p) {
                    let k = choose|k: int| 0 <= k < r@.len() && r@[k] == p;
                }
            }
        }
    }
    Ok(r)
}

/// Are two texts the same, character for character?
pub fn str_eq(a: &str, b: &str) -> (r: bool)
    ensures
        r == (a@ == b@),
{
    let ca = str_chars(a);
    let cb = str_chars(b);
    if ca.len() != cb.len() {
        proof {
            assert(a@.len() != b@.len());
        }
        return false;
    }
    let mut k: usize = 0;
    while k < ca.len()
        invariant
            ca@ == a@,
            cb@ == b@,
            ca@.len() == cb@.len(),
            k <= ca@.len(),
            forall|k2: int| 0 <= k2 < k ==> a@[k2] == b@[k2],
        decreases ca@.len() - k,
    {
        if ca[k] != cb[k] {
            proof {
                assert(a@[k as int] != b@[k as int]);
            }
            return false;
        }
        k += 1;
    }
    proof {
        assert(a@ =~= b@);
    }
    true
}

/// The board column a file letter names.
pub open spec fn file_spec(c: char) -> Option<u8> {
    if c == 'a' {
        Some(0u8)
    } else if c == 'b' {
        Some(1u8)
    } else if c == 'c' {
        Some(2u8)
    } else if c == 'd' {
        Some(3u8)
    } else if c == 'e' {
        Some(4u8)
    } else if c == 'f' {
        Some(5u8)
    } else if c == 'g' {
        Some(6u8)
    } else if c == 'h' {
        Some(7u8)
    } else {
        None
    }
}

/// The board row a rank digit names.
pub open spec fn rank_spec(c: char) -> Option<u8> {
    if c == '1' {
        Some(0u8)
    } else if c == '2' {
        Some(1u8)
    } else if c == '3' {
        Some(2u8)
    } else if c == '4' {
        Some(3u8)
    } else if c == '5' {
        Some(4u8)
    } else if c == '6' {
        Some(5u8)
    } else if c == '7' {
        Some(6u8)
    } else if c == '8' {
        Some(7u8)
    } else {
        None
    }
}

fn file_of(c: char) -> (r: Option<u8>)
    ensures
        r == file_spec(c),
{
    match c {
        'a' => Some(0),
        'b' => Some(1),
        'c' => Some(2),
        'd' => Some(3),
        'e' => Some(4),
        'f' => Some(5),
        'g' => Some(6),
        'h' => Some(7),
        _ => None,
    }
}

fn rank_of(c: char) -> (r: Option<u8>)
    ensures
        r == rank_spec(c),
{
    match c {
        '1' => Some(0),
        '2' => Some(1),
        '3' => Some(2),
        '4' => Some(3),
        '5' => Some(4),
        '6' => Some(5),
        '7' => Some(6),
        '8' => Some(7),
        _ => None,
    }
}

/// The texts the move reader accepts: five characters, a piece letter
/// (not the empty-square dot), two on-board squares, and the two squares
/// distinct.
pub open spec fn accepts_move(s: Seq<char>) -> bool {
    s.len() == 5 && char_square(s[0]) is Some && char_square(s[0])->0 != Square::Empty
        && file_spec(s[1]) is Some && rank_spec(s[2]) is Some && file_spec(s[3]) is Some
        && rank_spec(s[4]) is Some && (file_spec(s[1]) != file_spec(s[3]) || rank_spec(s[2])
        != rank_spec(s[4]))
}

/// Parse a move from `<piece><from-file><from-rank><to-file><to-rank>`.
/// Accepts exactly the texts `accepts_move` names; anything else is a
/// surfaced error naming what was wrong.
pub fn parse_move(s: &str) -> (r: Result<crate::moves::Move, ParseError>)
    ensures
        r is Ok <==> accepts_move(s@),
        r matches Ok(m) ==> s@.len() == 5 && m.valid_spec() && m.piece != Square::Empty
            && char_square(s@[0]) == Some(m.piece) && file_spec(s@[1]) == Some(
            m.from.col_spec() as u8,
        ) && rank_spec(s@[2]) == Some(m.from.row_spec() as u8) && file_spec(s@[3]) == Some(
            m.to.col_spec() as u8,
        ) && rank_spec(s@[4]) == Some(m.to.row_spec() as u8),
        r matches Err(e) ==> (e == ParseError::MoveSyntax <==> s@.len() != 5) && (e
            == ParseError::InvalidPiece ==> s@.len() == 5 && !(char_square(s@[0]) is Some
            && char_square(s@[0])->0 != Square::Empty)) && (e == ParseError::InvalidPos ==> s@.len()
            == 5 && char_square(s@[0]) is Some && char_square(s@[0])->0 != Square::Empty && !(
        file_spec(s@[1]) is Some && rank_spec(s@[2]) is Some && file_spec(s@[3]) is Some
            && rank_spec(s@[4]) is Some && (file_spec(s@[1]) != file_spec(s@[3]) || rank_spec(
            s@[2],
        ) != rank_spec(s@[4])))),
{
    let cs = str_chars(s);
    if cs.len() != 5 {
        return Err(ParseError::MoveSyntax);
    }
    let piece = match Square::try_from_char(cs[0]) {
        Some(sq) => sq,
        None => {
            proof {
                assert(char_square(cs@[0]) is None) by {
                    if char_square(cs@[0]) is Some {
                        let s0 = char_square(cs@[0])->0;
                        assert(s0.to_char_spec() == cs@[0]);
                    }
                }
            }
            return Err(ParseError::InvalidPiece);
        },
    };
    if piece == Square::Empty || piece == Square::OffBoard {
        proof {
            assert(piece.to_char_spec() == cs@[0]);
            if piece == Square::OffBoard {
                assert(char_square('?') is None);
            }
        }
        return Err(ParseError::InvalidPiece);
    }
    proof {
        assert(char_square(cs@[0]) == Some(piece)) by {
            assert(piece.to_char_spec() == cs@[0]);
        }
    }
    let fc = match file_of(cs[1]) {
        Some(v) => v,
        None => {
            return Err(ParseError::InvalidPos);
        },
    };
    let fr = match rank_of(cs[2]) {
        Some(v) => v,
        None => {
            return Err(ParseError::InvalidPos);
        },
    };
    let tc = match file_of(cs[3]) {
        Some(v) => v,
        None => {
            return Err(ParseError::InvalidPos);
        },
    };
    let tr = match rank_of(cs[4]) {
        Some(v) => v,
        None => {
            return Err(ParseError::InvalidPos);
        },
    };
    let from = crate::pos::pos(fr, fc);
    let to = crate::pos::pos(tr, tc);
    if from == to {
        proof {
            assert(file_spec(cs@[1]) == file_spec(cs@[3]) && rank_spec(cs@[2]) == rank_spec(
                cs@[4],
            ));
        }
        return Err(ParseError::InvalidPos);
    }
    proof {
        assert(file_spec(cs@[1]) != file_spec(cs@[3]) || rank_spec(cs@[2]) != rank_spec(cs@[4]))
            by {
            if fc == tc && fr == tr {
                assert(from == to);
            }
        }
    }
    Ok(crate::moves::Move::new(piece, from, to))
}

} // verus!
