use vstd::prelude::*;

verus! {

/// Board coordinate in 0x88 form: the high nibble is the row, the low nibble
/// the column. A coordinate is on the board when both nibbles are below 8,
/// which the single mask test `p & 0x88 == 0` decides.
#[derive(Clone, Copy, PartialEq, Eq, Structural, Hash, PartialOrd, Ord, Debug)]
pub struct Pos(pub u8);

impl Pos {
    /// Row of the coordinate, in 0..16 (only 0..8 is on the board).
    pub open spec fn row_spec(self) -> int {
        self.0 as int / 16
    }

    /// Column of the coordinate, in 0..16 (only 0..8 is on the board).
    pub open spec fn col_spec(self) -> int {
        self.0 as int % 16
    }

    /// On-board coordinates have row and column below 8.
    pub open spec fn valid(self) -> bool {
        self.row_spec() < 8 && self.col_spec() < 8
    }

    /// Row-major square number of an on-board coordinate, in 0..64.
    pub open spec fn index_spec(self) -> int {
        self.row_spec() * 8 + self.col_spec()
    }

    pub fn new(row: u8, col: u8) -> (r: Self)
        requires
            row < 8,
            col < 8,
        ensures
            r.row_spec() == row,
            r.col_spec() == col,
            r.valid(),
    {
        proof {
            assert(((row << 4) | col) / 16 == row && ((row << 4) | col) % 16 == col)
                by (bit_vector)
                requires
                    row < 8,
                    col < 8,
            ;
        }
        Self(row << 4 | col)
    }

    /// Linear row-major index in 0..64.
    pub fn index(self) -> (r: usize)
        requires
            self.valid(),
        ensures
            r == self.index_spec(),
            r < 64,
    {
        proof {
            let x = self.0;
            assert(((x >> 4) << 3 | (x & 0b1111)) == (x / 16) * 8 + x % 16 && ((x >> 4) << 3 | (
            x & 0b1111)) < 64) by (bit_vector)
                requires
                    x / 16 < 8,
                    x % 16 < 8,
            ;
        }
        ((self.0 >> 4) << 3 | (self.0 & 0b1111)) as usize
    }

    /// Convert a row-major index in 0..64 back to a coordinate.
    pub fn from_index(index: usize) -> (r: Self)
        requires
            index < 64,
        ensures
            r.valid(),
            r.row_spec() == index / 8,
            r.col_spec() == index % 8,
            r.index_spec() == index,
    {
        let row = (index >> 3) as u8;
        let col = (index & 0b111) as u8;
        proof {
            let i = index;
            assert(i < 64 ==> (i >> 3) == i / 8 && (i & 0b111) == i % 8 && i / 8 < 8 && i % 8 < 8)
                by (bit_vector);
        }
        Self::new(row, col)
    }

    /// Row, not necessarily on the board.
    pub fn row(self) -> (r: u8)
        ensures
            r == self.row_spec(),
    {
        proof {
            let x = self.0;
            assert(x >> 4 == x / 16) by (bit_vector);
        }
        self.0 >> 4
    }

    /// Column, not necessarily on the board.
    pub fn col(self) -> (r: u8)
        ensures
            r == self.col_spec(),
    {
        proof {
            let x = self.0;
            assert(x & 0b1111 == x % 16) by (bit_vector);
        }
        self.0 & 0b1111
    }

    /// Is this coordinate on the board?
    pub fn is_valid(self) -> (r: bool)
        ensures
            r == self.valid(),
    {
        proof {
            let x = self.0;
            assert((x & 0x88) == 0 <==> (x / 16 < 8 && x % 16 < 8)) by (bit_vector);
        }
        (self.0 & 0x88) == 0
    }

    /// Taxicab distance between two on-board coordinates.
    pub fn l1_distance_to(self, rhs: Self) -> (r: u8)
        requires
            self.valid(),
            rhs.valid(),
        ensures
            r == abs_diff(self.row_spec(), rhs.row_spec()) + abs_diff(
                self.col_spec(),
                rhs.col_spec(),
            ),
    {
        let dr = if self.row() >= rhs.row() {
            self.row() - rhs.row()
        } else {
            rhs.row() - self.row()
        };
        let dc = if self.col() >= rhs.col() {
            self.col() - rhs.col()
        } else {
            rhs.col() - self.col()
        };
        dr + dc
    }

    /// What `offset` returns: the byte sum, wrapped.
    pub open spec fn offset_spec(self, d: u8) -> Pos {
        Pos(((self.0 + d) % 256) as u8)
    }

    /// Add a (possibly negative, wrapped) `delta` to the coordinate.
    /// Off-board results are detected afterwards with `is_valid`.
    pub fn offset(self, d: u8) -> (r: Self)
        ensures
            r == self.offset_spec(d),
    {
        Self(self.0.wrapping_add(d))
    }
}

pub open spec fn abs_diff(a: int, b: int) -> int {
    if a >= b {
        a - b
    } else {
        b - a
    }
}

/// Two on-board coordinates with the same row-major index are the same
/// coordinate.
pub proof fn lemma_pos_index_inj(a: Pos, b: Pos)
    requires
        a.valid(),
        b.valid(),
        a.index_spec() == b.index_spec(),
    ensures
        a == b,
{
    vstd::arithmetic::div_mod::lemma_fundamental_div_mod(a.0 as int, 16);
    vstd::arithmetic::div_mod::lemma_fundamental_div_mod(b.0 as int, 16);
}

/// An on-board coordinate's index decomposes back into its row and column.
pub proof fn lemma_pos_coords(p: Pos)
    requires
        p.valid(),
    ensures
        0 <= p.index_spec() < 64,
        p.index_spec() / 8 == p.row_spec(),
        p.index_spec() % 8 == p.col_spec(),
{
    vstd::arithmetic::div_mod::lemma_fundamental_div_mod_converse(
        p.index_spec(),
        8,
        p.row_spec(),
        p.col_spec(),
    );
}

/// Construct an on-board coordinate.
pub fn pos(row: u8, col: u8) -> (r: Pos)
    requires
        row < 8,
        col < 8,
    ensures
        r.row_spec() == row,
        r.col_spec() == col,
        r.valid(),
{
    Pos::new(row, col)
}

/// What `delta` returns: the packed step byte.
pub open spec fn delta_spec(row: i8, col: i8) -> u8 {
    (((row as u8) * 16 + (col as u8)) % 256) as u8
}

/// Pack a row/column step into one byte, to be added to a coordinate with
/// `offset`. For example `pos(7, 5).offset(delta(-2, 0))`.
pub fn delta(row: i8, col: i8) -> (r: u8)
    ensures
        r == delta_spec(row, col),
{
    proof {
        let x = row as u8;
        assert(x << 4 == (x * 16) % 256) by (bit_vector);
    }
    ((row as u8) << 4).wrapping_add(col as u8)
}

/// The single fact the movement code needs about `offset` and `delta`: for a
/// step of at most 2 in each direction, the sum is on the board exactly when
/// the stepped row and column both land in 0..8, and then they add up
/// coordinate-wise.
pub proof fn lemma_offset_delta(p: Pos, dr: i8, dc: i8)
    requires
        p.valid(),
        -8 < dr < 8,
        -8 < dc < 8,
    ensures
        p.offset_spec(delta_spec(dr, dc)).valid() <==> (0 <= p.row_spec() + dr < 8 && 0
            <= p.col_spec() + dc < 8),
        p.offset_spec(delta_spec(dr, dc)).valid() ==> p.offset_spec(
            delta_spec(dr, dc),
        ).row_spec() == p.row_spec() + dr && p.offset_spec(delta_spec(dr, dc)).col_spec()
            == p.col_spec() + dc,
{
    let x = p.0;
    let d: u8 = delta_spec(dr, dc);
    let s: u8 = ((x + d) % 256) as u8;
    assert((s / 16 < 8 && s % 16 < 8) <==> (0 <= x / 16 + dr < 8 && 0 <= x % 16 + dc < 8))
        by (bit_vector)
        requires
            x / 16 < 8,
            x % 16 < 8,
            -8 < dr < 8,
            -8 < dc < 8,
            d == (((dr as u8) * 16 + (dc as u8)) % 256) as u8,
            s == ((x + d) % 256) as u8,
    ;
    assert((s / 16 < 8 && s % 16 < 8) ==> (s / 16 == x / 16 + dr && s % 16 == x % 16 + dc))
        by (bit_vector)
        requires
            x / 16 < 8,
            x % 16 < 8,
            -8 < dr < 8,
            -8 < dc < 8,
            d == (((dr as u8) * 16 + (dc as u8)) % 256) as u8,
            s == ((x + d) % 256) as u8,
    ;
}

} // verus!
