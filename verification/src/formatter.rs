use vstd::prelude::*;
use vstd::string::StringExecFns;
use crate::board::Board;
use crate::square::Square;

verus! {

/// Append one square's letter to a text.
fn append_square(s: &mut String, sq: Square)
    ensures
        final(s)@ == old(s)@ + seq![sq.to_char_spec()],
{
    match sq {
        Square::Empty => {
            proof {
                reveal_strlit(".");
            }
            s.append(".");
        },
        Square::WPawn => {
            proof {
                reveal_strlit("P");
            }
            s.append("P");
        },
        Square::WRook => {
            proof {
                reveal_strlit("R");
            }
            s.append("R");
        },
        Square::WKnight => {
            proof {
                reveal_strlit("N");
            }
            s.append("N");
        },
        Square::WBisshop => {
            proof {
                reveal_strlit("B");
            }
            s.append("B");
        },
        Square::WQueen => {
            proof {
                reveal_strlit("Q");
            }
            s.append("Q");
        },
        Square::WKing => {
            proof {
                reveal_strlit("K");
            }
            s.append("K");
        },
        Square::BPawn => {
            proof {
                reveal_strlit("p");
            }
            s.append("p");
        },
        Square::BRook => {
            proof {
                reveal_strlit("r");
            }
            s.append("r");
        },
        Square::BKnight => {
            proof {
                reveal_strlit("n");
            }
            s.append("n");
        },
        Square::BBisshop => {
            proof {
                reveal_strlit("b");
            }
            s.append("b");
        },
        Square::BQueen => {
            proof {
                reveal_strlit("q");
            }
            s.append("q");
        },
        Square::BKing => {
            proof {
                reveal_strlit("k");
            }
            s.append("k");
        },
        Square::OffBoard => {
            proof {
                reveal_strlit("?");
            }
            s.append("?");
        },
    }
    proof {
        assert(s@ =~= old(s)@ + seq![sq.to_char_spec()]);
    }
}

/// One text row of the plain notation: the eight letters of rank `r`, then
/// a newline.
pub open spec fn text_row(b: Board, r: int) -> Seq<char> {
    Seq::new(8, |c: int| b.at_spec((r * 8 + c) as u64).to_char_spec()) + seq!['\n']
}

/// The plain text of a board: eight lines of eight letters, top rank first.
pub open spec fn text_spec(b: Board) -> Seq<char> {
    text_row(b, 7) + text_row(b, 6) + text_row(b, 5) + text_row(b, 4) + text_row(b, 3) + text_row(
        b,
        2,
    ) + text_row(b, 1) + text_row(b, 0)
}

impl Board {
    /// The plain text notation of the board.
    pub fn to_text(&self) -> (r: String)
        requires
            self.wf(),
        ensures
            r@ == text_spec(*self),
    {
        let mut s = String::new();
        let mut done: usize = 0;
        while done < 8
            invariant
                self.wf(),
                done <= 8,
                s@ == text_rows_down(*self, done as int),
            decreases 8 - done,
        {
            let r = 7 - done;
            let mut c: usize = 0;
            while c < 8
                invariant
                    self.wf(),
                    done < 8,
                    r == 7 - done,
                    c <= 8,
                    s@ == text_rows_down(*self, done as int) + Seq::new(
                        c as nat,
                        |cc: int| self.at_spec((r as int * 8 + cc) as u64).to_char_spec(),
                    ),
                decreases 8 - c,
            {
                let p = crate::pos::pos(r as u8, c as u8);
                let sq = self.at(p);
                append_square(&mut s, sq);
                proof {
                    assert(s@ =~= text_rows_down(*self, done as int) + Seq::new(
                        (c + 1) as nat,
                        |cc: int| self.at_spec((r as int * 8 + cc) as u64).to_char_spec(),
                    ));
                }
                c += 1;
            }
            proof {
                reveal_strlit("\n");
            }
            s.append("\n");
            proof {
                assert(s@ =~= text_rows_down(*self, done as int) + text_row(*self, r as int));
                assert(s@ =~= text_rows_down(*self, done as int + 1));
            }
            done += 1;
        }
        proof {
            let b = *self;
            assert(text_rows_down(b, 0) == Seq::<char>::empty());
            assert(text_rows_down(b, 1) =~= Seq::<char>::empty() + text_row(b, 7));
            assert(text_rows_down(b, 2) == text_rows_down(b, 1) + text_row(b, 6));
            assert(text_rows_down(b, 3) == text_rows_down(b, 2) + text_row(b, 5));
            assert(text_rows_down(b, 4) == text_rows_down(b, 3) + text_row(b, 4));
            assert(text_rows_down(b, 5) == text_rows_down(b, 4) + text_row(b, 3));
            assert(text_rows_down(b, 6) == text_rows_down(b, 5) + text_row(b, 2));
            assert(text_rows_down(b, 7) == text_rows_down(b, 6) + text_row(b, 1));
            assert(text_rows_down(b, 8) == text_rows_down(b, 7) + text_row(b, 0));
            assert(s@ =~= text_spec(b));
        }
        s
    }
}

/// The first `done` rows of the plain text, from the top.
pub open spec fn text_rows_down(b: Board, done: int) -> Seq<char>
    decreases done,
{
    if done <= 0 {
        Seq::empty()
    } else {
        text_rows_down(b, done - 1) + text_row(b, 8 - done)
    }
}

/// The plain board text is well shaped and reads back square by square.
pub proof fn lemma_text_round_trip(b: Board)
    requires
        b.wf(),
    ensures
        crate::parser::is_board_text(text_spec(b)),
        forall|i: u64|
            i < 64 ==> crate::parser::text_square(text_spec(b), i as int) == b.at_spec(i),
{
    let s = text_spec(b);
    lemma_sq_char_some();
    assert forall|k: int| 0 <= k < 72 implies (if k % 9 == 8 {
        s[k] == '\n'
    } else {
        crate::parser::char_square(#[trigger] s[k]) is Some
    }) by {
        vstd::arithmetic::div_mod::lemma_fundamental_div_mod(k, 9);
        let row = k / 9;
        let col = k % 9;
        assert(s[k] == text_row(b, 7 - row)[col]);
        b.lemma_at((if col == 8 {
            0
        } else {
            (7 - row) * 8 + col
        }) as u64);
    }
    assert(s.len() == 72);
    assert forall|i: u64| i < 64 implies crate::parser::text_square(s, i as int) == b.at_spec(
        i,
    ) by {
        let ii = i as int;
        let k = (7 - ii / 8) * 9 + ii % 8;
        vstd::arithmetic::div_mod::lemma_fundamental_div_mod(ii, 8);
        assert(s[k] == text_row(b, ii / 8)[ii % 8]);
        assert(s[k] == b.at_spec(i).to_char_spec());
        b.lemma_at(i);
    }
}

/// Every real square's letter reads back to that square.
proof fn lemma_sq_char_some()
    ensures
        forall|sq: Square|
            sq != Square::OffBoard ==> crate::parser::char_square(#[trigger] sq.to_char_spec())
                == Some(sq),
{
}

/// The rank digit of row `r`.
pub open spec fn digit_char(r: int) -> char {
    if r == 0 {
        '1'
    } else if r == 1 {
        '2'
    } else if r == 2 {
        '3'
    } else if r == 3 {
        '4'
    } else if r == 4 {
        '5'
    } else if r == 5 {
        '6'
    } else if r == 6 {
        '7'
    } else {
        '8'
    }
}

/// The first `c` cells of a rendered rank: a space and a letter each.
pub open spec fn pretty_cells(ps: Seq<Square>, r: int, c: int) -> Seq<char>
    decreases c,
{
    if c <= 0 {
        Seq::empty()
    } else {
        pretty_cells(ps, r, c - 1) + seq![' ', ps[r * 8 + (c - 1)].to_char_spec()]
    }
}

/// One rendered rank: its digit, eight cells, a newline.
pub open spec fn pretty_row(ps: Seq<Square>, r: int) -> Seq<char> {
    seq![digit_char(r)] + pretty_cells(ps, r, 8) + seq!['\n']
}

/// The first `done` rendered ranks, from the top.
pub open spec fn pretty_rows_down(ps: Seq<Square>, done: int) -> Seq<char>
    decreases done,
{
    if done <= 0 {
        Seq::empty()
    } else {
        pretty_rows_down(ps, done - 1) + pretty_row(ps, 8 - done)
    }
}

/// A rendered board: a leading newline, the eight ranks top first, and the
/// file letters underneath.
pub open spec fn pretty_spec(ps: Seq<Square>) -> Seq<char> {
    seq!['\n'] + pretty_rows_down(ps, 8) + "  a b c d e f g h"@
}

fn append_digit(s: &mut String, r: usize)
    requires
        r < 8,
    ensures
        final(s)@ == old(s)@ + seq![digit_char(r as int)],
{
    match r {
        0 => {
            proof {
                reveal_strlit("1");
            }
            s.append("1");
        },
        1 => {
            proof {
                reveal_strlit("2");
            }
            s.append("2");
        },
        2 => {
            proof {
                reveal_strlit("3");
            }
            s.append("3");
        },
        3 => {
            proof {
                reveal_strlit("4");
            }
            s.append("4");
        },
        4 => {
            proof {
                reveal_strlit("5");
            }
            s.append("5");
        },
        5 => {
            proof {
                reveal_strlit("6");
            }
            s.append("6");
        },
        6 => {
            proof {
                reveal_strlit("7");
            }
            s.append("7");
        },
        _ => {
            proof {
                reveal_strlit("8");
            }
            s.append("8");
        },
    }
    proof {
        assert(s@ =~= old(s)@ + seq![digit_char(r as int)]);
    }
}

/// Render 64 squares as a board, rank digits on the left, file letters
/// underneath.
pub fn format_board(pieces: &Vec<Square>) -> (r: String)
    requires
        pieces@.len() == 64,
    ensures
        r@ == pretty_spec(pieces@),
{
    let ghost ps = pieces@;
    let mut s = String::new();
    proof {
        reveal_strlit("\n");
    }
    s.append("\n");
    proof {
        assert(s@ =~= seq!['\n'] + pretty_rows_down(ps, 0));
    }
    let mut done: usize = 0;
    while done < 8
        invariant
            pieces@ == ps,
            ps.len() == 64,
            done <= 8,
            s@ == seq!['\n'] + pretty_rows_down(ps, done as int),
        decreases 8 - done,
    {
        let r = 7 - done;
        append_digit(&mut s, r);
        proof {
            assert(s@ =~= seq!['\n'] + pretty_rows_down(ps, done as int) + seq![
                digit_char(r as int),
            ] + pretty_cells(ps, r as int, 0));
        }
        let mut c: usize = 0;
        while c < 8
            invariant
                pieces@ == ps,
                ps.len() == 64,
                done < 8,
                r == 7 - done,
                c <= 8,
                s@ == seq!['\n'] + pretty_rows_down(ps, done as int) + seq![
                    digit_char(r as int),
                ] + pretty_cells(ps, r as int, c as int),
            decreases 8 - c,
        {
            proof {
                reveal_strlit(" ");
            }
            s.append(" ");
            append_square(&mut s, pieces[r * 8 + c]);
            proof {
                assert(s@ =~= seq!['\n'] + pretty_rows_down(ps, done as int) + seq![
                    digit_char(r as int),
                ] + pretty_cells(ps, r as int, c as int + 1));
            }
            c += 1;
        }
        proof {
            reveal_strlit("\n");
        }
        s.append("\n");
        proof {
            assert(s@ =~= seq!['\n'] + pretty_rows_down(ps, done as int) + pretty_row(
                ps,
                r as int,
            ));
            assert(s@ =~= seq!['\n'] + pretty_rows_down(ps, done as int + 1));
        }
        done += 1;
    }
    s.append("  a b c d e f g h");
    proof {
        assert(s@ =~= pretty_spec(ps));
    }
    s
}

impl Board {
    /// Render the board for a terminal, rank digits and file letters round
    /// the squares.
    pub fn render(&self) -> (r: String)
        requires
            self.wf(),
        ensures
            r@ == pretty_spec(Seq::new(64, |i: int| self.at_spec(i as u64))),
    {
        let mut pieces: Vec<Square> = Vec::new();
        let mut i: usize = 0;
        while i < 64
            invariant
                self.wf(),
                i <= 64,
                pieces@.len() == i,
                forall|k: int| 0 <= k < i ==> pieces@[k] == self.at_spec(k as u64),
            decreases 64 - i,
        {
            let p = crate::pos::Pos::from_index(i);
            pieces.push(self.at(p));
            i += 1;
        }
        proof {
            assert(pieces@ =~= Seq::new(64, |i: int| self.at_spec(i as u64)));
        }
        format_board(&pieces)
    }
}

} // verus!
