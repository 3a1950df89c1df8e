use vstd::prelude::*;
use crate::pos::Pos;

verus! {

/// Is bit `i` of `x` set? The board masks use bit `i` for the square with
/// row-major index `i` (row `i / 8`, column `i % 8`).
pub open spec fn bit(x: u64, i: u64) -> bool {
    (x >> i) & 1 == 1
}

/// Bits of `x | y`, `x & y` and `!x`, bit by bit.
pub proof fn lemma_bit_ops(x: u64, y: u64)
    by (bit_vector)
    ensures
        forall|i: u64| i < 64 ==> (#[trigger] bit(x | y, i) <==> bit(x, i) || bit(y, i)),
        forall|i: u64| i < 64 ==> (#[trigger] bit(x & y, i) <==> bit(x, i) && bit(y, i)),
        forall|i: u64| i < 64 ==> (#[trigger] bit(!x, i) <==> !bit(x, i)),
{
}

/// Two masks with the same bits are the same mask.
pub proof fn lemma_bit_ext(x: u64, y: u64)
    requires
        forall|i: u64| i < 64 ==> (bit(x, i) <==> bit(y, i)),
    ensures
        x == y,
{
    lemma_bit_ext_rec(x, y, 64);
    assert(x == y) by (bit_vector)
        requires
            x << (64u64 - 64u64) == y << (64u64 - 64u64),
    ;
}

/// The low `n` bits of `x` and `y` agree, stated as a shift so that the
/// bit-vector solver can chain it one bit at a time.
proof fn lemma_bit_ext_rec(x: u64, y: u64, n: u64)
    requires
        n <= 64,
        forall|i: u64| i < n ==> (bit(x, i) <==> bit(y, i)),
    ensures
        x << ((64 - n) as u64) == y << ((64 - n) as u64),
    decreases n,
{
    if n == 0 {
        assert(x << 64u64 == y << 64u64) by (bit_vector);
    } else {
        lemma_bit_ext_rec(x, y, (n - 1) as u64);
        assert(bit(x, (n - 1) as u64) == bit(y, (n - 1) as u64));
        let m = (n - 1) as u64;
        assert(x << ((64 - (m + 1)) as u64) == y << ((64 - (m + 1)) as u64)) by (bit_vector)
            requires
                m < 64,
                x << ((64 - m) as u64) == y << ((64 - m) as u64),
                ((x >> m) & 1 == 1) == ((y >> m) & 1 == 1),
        ;
    }
}

/// Bits of the single-square mask `1 << p`.
pub proof fn lemma_single_bit(p: u64)
    by (bit_vector)
    requires
        p < 64,
    ensures
        forall|i: u64| i < 64 ==> (#[trigger] bit(1u64 << p, i) <==> i == p),
        (1u64 << p) != 0,
{
}

/// A mask intersects a single-square mask exactly when it holds that square.
pub proof fn lemma_test_bit(x: u64, p: u64)
    by (bit_vector)
    requires
        p < 64,
    ensures
        (x & (1u64 << p)) != 0 <==> bit(x, p),
{
}


/// The shifts as spec-level mask functions, so that contracts can name the
/// mask a shift returns.
pub open spec fn sh_n_spec(set: u64) -> u64 {
    set << 8
}

pub open spec fn sh_s_spec(set: u64) -> u64 {
    set >> 8
}

pub open spec fn sh_e_spec(set: u64) -> u64 {
    (set << 1) & !COL0
}

pub open spec fn sh_w_spec(set: u64) -> u64 {
    (set >> 1) & !COL7
}

pub open spec fn sh_ne_spec(set: u64) -> u64 {
    (set & !COL7) << 9
}

pub open spec fn sh_se_spec(set: u64) -> u64 {
    (set & !COL7) >> 7
}

pub open spec fn sh_sw_spec(set: u64) -> u64 {
    (set & !COL0) >> 9
}

pub open spec fn sh_nw_spec(set: u64) -> u64 {
    (set & !COL0) << 7
}

/// Shift one row north: square (r, c) comes from (r - 1, c).
pub fn sh_n(set: u64) -> (r: u64)
    ensures
        r == sh_n_spec(set),
        forall|i: u64| i < 64 ==> (#[trigger] bit(r, i) <==> (i >= 8 && bit(set, (i - 8) as u64))),
{
    proof {
        lemma_sh_n(set);
    }
    set << 8
}

pub proof fn lemma_sh_n(set: u64)
    by (bit_vector)
    ensures
        forall|i: u64|
            i < 64 ==> (#[trigger] bit(set << 8, i) <==> (i >= 8 && bit(set, (i - 8) as u64))),
{
}

/// Shift one row south: square (r, c) comes from (r + 1, c).
pub fn sh_s(set: u64) -> (r: u64)
    ensures
        r == sh_s_spec(set),
        forall|i: u64| i < 64 ==> (#[trigger] bit(r, i) <==> (i < 56 && bit(set, (i + 8) as u64))),
{
    proof {
        lemma_sh_s(set);
    }
    set >> 8
}

pub proof fn lemma_sh_s(set: u64)
    by (bit_vector)
    ensures
        forall|i: u64|
            i < 64 ==> (#[trigger] bit(set >> 8, i) <==> (i < 56 && bit(set, (i + 8) as u64))),
{
}

/// Shift one column east: square (r, c) comes from (r, c - 1).
pub fn sh_e(set: u64) -> (r: u64)
    ensures
        r == sh_e_spec(set),
        forall|i: u64|
            i < 64 ==> (#[trigger] bit(r, i) <==> (i % 8 >= 1 && bit(set, (i - 1) as u64))),
{
    proof {
        lemma_sh_e(set);
    }
    (set << 1) & !COL0
}

pub proof fn lemma_sh_e(set: u64)
    by (bit_vector)
    ensures
        forall|i: u64|
            i < 64 ==> (#[trigger] bit((set << 1) & !COL0, i) <==> (i % 8 >= 1 && bit(
                set,
                (i - 1) as u64,
            ))),
{
}

/// Shift one column west: square (r, c) comes from (r, c + 1).
pub fn sh_w(set: u64) -> (r: u64)
    ensures
        r == sh_w_spec(set),
        forall|i: u64|
            i < 64 ==> (#[trigger] bit(r, i) <==> (i % 8 <= 6 && bit(set, (i + 1) as u64))),
{
    proof {
        lemma_sh_w(set);
    }
    (set >> 1) & !COL7
}

pub proof fn lemma_sh_w(set: u64)
    by (bit_vector)
    ensures
        forall|i: u64|
            i < 64 ==> (#[trigger] bit((set >> 1) & !COL7, i) <==> (i % 8 <= 6 && bit(
                set,
                (i + 1) as u64,
            ))),
{
}

/// Shift north east: square (r, c) comes from (r - 1, c - 1).
pub fn sh_ne(set: u64) -> (r: u64)
    ensures
        r == sh_ne_spec(set),
        forall|i: u64|
            i < 64 ==> (#[trigger] bit(r, i) <==> (i >= 9 && i % 8 >= 1 && bit(
                set,
                (i - 9) as u64,
            ))),
{
    proof {
        lemma_sh_ne(set);
    }
    (set & !COL7) << 9
}

pub proof fn lemma_sh_ne(set: u64)
    by (bit_vector)
    ensures
        forall|i: u64|
            i < 64 ==> (#[trigger] bit((set & !COL7) << 9, i) <==> (i >= 9 && i % 8 >= 1 && bit(
                set,
                (i - 9) as u64,
            ))),
{
}

/// Shift south east: square (r, c) comes from (r + 1, c - 1).
pub fn sh_se(set: u64) -> (r: u64)
    ensures
        r == sh_se_spec(set),
        forall|i: u64|
            i < 64 ==> (#[trigger] bit(r, i) <==> (i < 57 && i % 8 >= 1 && bit(
                set,
                (i + 7) as u64,
            ))),
{
    proof {
        lemma_sh_se(set);
    }
    (set & !COL7) >> 7
}

pub proof fn lemma_sh_se(set: u64)
    by (bit_vector)
    ensures
        forall|i: u64|
            i < 64 ==> (#[trigger] bit((set & !COL7) >> 7, i) <==> (i < 57 && i % 8 >= 1 && bit(
                set,
                (i + 7) as u64,
            ))),
{
}

/// Shift south west: square (r, c) comes from (r + 1, c + 1).
pub fn sh_sw(set: u64) -> (r: u64)
    ensures
        r == sh_sw_spec(set),
        forall|i: u64|
            i < 64 ==> (#[trigger] bit(r, i) <==> (i < 55 && i % 8 <= 6 && bit(
                set,
                (i + 9) as u64,
            ))),
{
    proof {
        lemma_sh_sw(set);
    }
    (set & !COL0) >> 9
}

pub proof fn lemma_sh_sw(set: u64)
    by (bit_vector)
    ensures
        forall|i: u64|
            i < 64 ==> (#[trigger] bit((set & !COL0) >> 9, i) <==> (i < 55 && i % 8 <= 6 && bit(
                set,
                (i + 9) as u64,
            ))),
{
}

/// Shift north west: square (r, c) comes from (r - 1, c + 1).
pub fn sh_nw(set: u64) -> (r: u64)
    ensures
        r == sh_nw_spec(set),
        forall|i: u64|
            i < 64 ==> (#[trigger] bit(r, i) <==> (i >= 7 && i % 8 <= 6 && bit(
                set,
                (i - 7) as u64,
            ))),
{
    proof {
        lemma_sh_nw(set);
    }
    (set & !COL0) << 7
}

pub proof fn lemma_sh_nw(set: u64)
    by (bit_vector)
    ensures
        forall|i: u64|
            i < 64 ==> (#[trigger] bit((set & !COL0) << 7, i) <==> (i >= 7 && i % 8 <= 6 && bit(
                set,
                (i - 7) as u64,
            ))),
{
}


/// The eight ray and step directions on the board.
#[derive(Clone, Copy, PartialEq, Eq, Structural, Debug)]
pub enum Dir {
    N,
    E,
    S,
    W,
    NE,
    SE,
    SW,
    NW,
}

impl Dir {
    /// Row change of one step in this direction.
    pub open spec fn dr(self) -> int {
        match self {
            Dir::N => 1,
            Dir::E => 0,
            Dir::S => -1,
            Dir::W => 0,
            Dir::NE => 1,
            Dir::SE => -1,
            Dir::SW => -1,
            Dir::NW => 1,
        }
    }

    /// Column change of one step in this direction.
    pub open spec fn dc(self) -> int {
        match self {
            Dir::N => 0,
            Dir::E => 1,
            Dir::S => 0,
            Dir::W => -1,
            Dir::NE => 1,
            Dir::SE => 1,
            Dir::SW => -1,
            Dir::NW => -1,
        }
    }
}

/// One shift step in direction `d`, as a spec mask function.
pub open spec fn dshift_spec(d: Dir, x: u64) -> u64 {
    match d {
        Dir::N => sh_n_spec(x),
        Dir::E => sh_e_spec(x),
        Dir::S => sh_s_spec(x),
        Dir::W => sh_w_spec(x),
        Dir::NE => sh_ne_spec(x),
        Dir::SE => sh_se_spec(x),
        Dir::SW => sh_sw_spec(x),
        Dir::NW => sh_nw_spec(x),
    }
}

/// Does the square at target index `i` have a source one step back in
/// direction `d` on the board?
pub open spec fn dstep_ok(d: Dir, i: u64) -> bool {
    match d {
        Dir::N => i >= 8,
        Dir::E => i % 8 >= 1,
        Dir::S => i < 56,
        Dir::W => i % 8 <= 6,
        Dir::NE => i >= 9 && i % 8 >= 1,
        Dir::SE => i < 57 && i % 8 >= 1,
        Dir::SW => i < 55 && i % 8 <= 6,
        Dir::NW => i >= 7 && i % 8 <= 6,
    }
}

/// The source index one step back in direction `d` from target `i`.
pub open spec fn dstep_back(d: Dir, i: u64) -> u64 {
    match d {
        Dir::N => (i - 8) as u64,
        Dir::E => (i - 1) as u64,
        Dir::S => (i + 8) as u64,
        Dir::W => (i + 1) as u64,
        Dir::NE => (i - 9) as u64,
        Dir::SE => (i + 7) as u64,
        Dir::SW => (i + 9) as u64,
        Dir::NW => (i - 7) as u64,
    }
}

/// One shift step in direction `d`.
pub fn dshift(d: Dir, x: u64) -> (r: u64)
    ensures
        r == dshift_spec(d, x),
        forall|i: u64|
            i < 64 ==> (#[trigger] bit(r, i) <==> (dstep_ok(d, i) && bit(x, dstep_back(d, i)))),
{
    match d {
        Dir::N => sh_n(x),
        Dir::E => sh_e(x),
        Dir::S => sh_s(x),
        Dir::W => sh_w(x),
        Dir::NE => sh_ne(x),
        Dir::SE => sh_se(x),
        Dir::SW => sh_sw(x),
        Dir::NW => sh_nw(x),
    }
}

/// One shift step, square by square, as a lemma over the spec mask.
pub proof fn lemma_dshift_bits(d: Dir, x: u64)
    ensures
        forall|i: u64|
            i < 64 ==> (#[trigger] bit(dshift_spec(d, x), i) <==> (dstep_ok(d, i) && bit(
                x,
                dstep_back(d, i),
            ))),
{
    match d {
        Dir::N => lemma_sh_n(x),
        Dir::E => lemma_sh_e(x),
        Dir::S => lemma_sh_s(x),
        Dir::W => lemma_sh_w(x),
        Dir::NE => lemma_sh_ne(x),
        Dir::SE => lemma_sh_se(x),
        Dir::SW => lemma_sh_sw(x),
        Dir::NW => lemma_sh_nw(x),
    }
}

/// Stepping back from an on-board target lands on the board, one row and
/// column step away.
pub proof fn lemma_dstep_coords(d: Dir, i: u64)
    requires
        i < 64,
        dstep_ok(d, i),
    ensures
        dstep_back(d, i) < 64,
        dstep_back(d, i) / 8 == i / 8 - d.dr(),
        dstep_back(d, i) % 8 == i % 8 - d.dc(),
{
    let j = dstep_back(d, i) as int;
    let ii = i as int;
    vstd::arithmetic::div_mod::lemma_fundamental_div_mod(ii, 8);
    assert(0 <= ii % 8 < 8) by {
        vstd::arithmetic::div_mod::lemma_mod_bound(ii, 8);
    }
    assert(0 <= ii / 8 < 8) by {
        vstd::arithmetic::div_mod::lemma_div_pos_is_pos(ii, 8);
        if ii / 8 >= 8 {
            vstd::arithmetic::div_mod::lemma_fundamental_div_mod(ii, 8);
        }
    }
    assert(j == 8 * (ii / 8 - d.dr()) + (ii % 8 - d.dc()));
    vstd::arithmetic::div_mod::lemma_fundamental_div_mod_converse(
        j,
        8,
        ii / 8 - d.dr(),
        ii % 8 - d.dc(),
    );
}

/// Squares reachable from `bits` in exactly `n` steps of direction `d`, all
/// intermediate squares (not the start, not the end) lying in `empty`.
pub open spec fn stepped(bits: u64, empty: u64, d: Dir, n: nat) -> u64
    decreases n,
{
    if n <= 1 {
        dshift_spec(d, bits)
    } else {
        dshift_spec(d, stepped(bits, empty, d, (n - 1) as nat) & empty)
    }
}

/// Union of `stepped` for 1 up to `n` steps.
pub open spec fn slide_acc(bits: u64, empty: u64, d: Dir, n: nat) -> u64
    decreases n,
{
    if n <= 1 {
        stepped(bits, empty, d, 1)
    } else {
        slide_acc(bits, empty, d, (n - 1) as nat) | stepped(bits, empty, d, n)
    }
}

/// Two rows and the two outer columns as masks: the pawn home ranks and
/// the columns that clip sideways shifts.
pub const ROW1: u64 = 0xff00;

pub const ROW6: u64 = 0x00ff_0000_0000_0000;

pub const COL0: u64 = 0x0101_0101_0101_0101;

pub const COL7: u64 = 0x8080_8080_8080_8080;

/// Which squares the row masks hold.
pub proof fn lemma_row_masks()
    by (bit_vector)
    ensures
        forall|i: u64| i < 64 ==> (#[trigger] bit(ROW1, i) <==> i / 8 == 1),
        forall|i: u64| i < 64 ==> (#[trigger] bit(ROW6, i) <==> i / 8 == 6),
{
}

/// Does `set` hold the square at `pos`?
pub fn bit_at(set: u64, pos: Pos) -> (r: bool)
    requires
        pos.valid(),
    ensures
        r == bit(set, pos.index_spec() as u64),
{
    let i = pos.index();
    proof {
        lemma_test_bit(set, i as u64);
    }
    let mask = 1u64 << (i as u64);
    (set & mask) != 0
}

/// How many squares a mask holds (bits below `n`).
pub open spec fn count_below(x: u64, n: int) -> int
    decreases n,
{
    if n <= 0 {
        0
    } else {
        count_below(x, n - 1) + if bit(x, (n - 1) as u64) {
            1int
        } else {
            0int
        }
    }
}

/// How many squares a mask holds.
pub open spec fn count_bits(x: u64) -> int {
    count_below(x, 64)
}

pub proof fn lemma_count_below_bound(x: u64, n: int)
    requires
        0 <= n,
    ensures
        0 <= count_below(x, n) <= n,
    decreases n,
{
    if n > 0 {
        lemma_count_below_bound(x, n - 1);
    }
}

/// Count the set bits of a mask.
pub fn popcount(x: u64) -> (r: u32)
    ensures
        r == count_bits(x),
{
    let mut c: u32 = 0;
    for i in 0..64u64
        invariant
            c == count_below(x, i as int),
    {
        proof {
            lemma_count_below_bound(x, i as int);
        }
        if (x >> i) & 1 == 1 {
            c = c + 1;
        }
    }
    c
}

/// The row-major indices of the squares `set` holds, in ascending order.
pub fn iter_bitfield(set: u64) -> (r: Vec<u8>)
    ensures
        forall|k: int| 0 <= k < r@.len() ==> r@[k] < 64 && bit(set, #[trigger] r@[k] as u64),
        forall|k1: int, k2: int| 0 <= k1 < k2 < r@.len() ==> r@[k1] < r@[k2],
        forall|j: u64| j < 64 && #[trigger] bit(set, j) ==> r@.contains(j as u8),
{
    let mut r: Vec<u8> = Vec::new();
    for i in 0..64u64
        invariant
            forall|k: int| 0 <= k < r@.len() ==> r@[k] < i && bit(set, #[trigger] r@[k] as u64),
            forall|k1: int, k2: int| 0 <= k1 < k2 < r@.len() ==> r@[k1] < r@[k2],
            forall|j: u64| j < i && #[trigger] bit(set, j) ==> r@.contains(j as u8),
    {
        let ghost r0 = r@;
        if x_bit(set, i) {
            r.push(i as u8);
        }
        assert forall|j: u64| j < i + 1 && #[trigger] bit(set, j) implies r@.contains(j as u8) by {
            if j < i {
                let k = choose|k: int| 0 <= k < r0.len() && r0[k] == j as u8;
                assert(r@[k] == j as u8);
            } else {
                assert(r@[r@.len() - 1] == j as u8);
            }
        }
    }
    r
}

/// Helper: test one bit in executable code.
fn x_bit(set: u64, i: u64) -> (r: bool)
    requires
        i < 64,
    ensures
        r == bit(set, i),
{
    (set >> i) & 1 == 1
}

} // verus!
