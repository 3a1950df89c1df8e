use vstd::prelude::*;

verus! {

/// A bare (row, column) coordinate, used beside the packed one.
#[derive(Clone, Copy, Eq, PartialEq, Structural)]
pub struct Pos(pub u8, pub u8);

impl Pos {
    /// Row-major index of the coordinate.
    pub fn index(self) -> (r: usize)
        requires
            self.0 < 8,
            self.1 < 8,
        ensures
            r == self.0 * 8 + self.1,
            r < 64,
    {
        proof {
            let a = self.0;
            let b = self.1;
            assert((a << 3) | b == a * 8 + b && ((a << 3) | b) < 64) by (bit_vector)
                requires
                    a < 8,
                    b < 8,
            ;
        }
        ((self.0 << 3) | self.1) as usize
    }
}

} // verus!
