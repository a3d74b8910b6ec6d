//! Board coordinates: an integer (file, rank) pair with vector arithmetic
//! and axis-aligned range containment.

use vstd::prelude::*;

verus! {

/// A point on (or off) the board: `.0` is the file (column), `.1` the rank (row).
#[derive(Clone, Copy, PartialEq, Eq, Structural, Debug, Hash)]
pub struct Pos(pub i32, pub i32);

/// The playing surface: files 0..=8 and ranks 0..=9.
pub open spec fn on_board(p: Pos) -> bool {
    0 <= p.0 <= 8 && 0 <= p.1 <= 9
}

impl Pos {
    /// Containment in the axis-aligned box spanned by `bottom_left` and `top_right`.
    pub fn in_bound(&self, bottom_left: Pos, top_right: Pos) -> (r: bool)
        ensures
            r == (bottom_left.0 <= self.0 <= top_right.0 && bottom_left.1 <= self.1 <= top_right.1),
    {
        self.0 >= bottom_left.0 && self.0 <= top_right.0 && self.1 >= bottom_left.1
            && self.1 <= top_right.1
    }

    /// Componentwise vector addition, used to project movement deltas.
    pub fn add(self, rhs: Pos) -> (r: Pos)
        requires
            i32::MIN <= self.0 + rhs.0 <= i32::MAX,
            i32::MIN <= self.1 + rhs.1 <= i32::MAX,
        ensures
            r.0 == self.0 + rhs.0,
            r.1 == self.1 + rhs.1,
    {
        Pos(self.0 + rhs.0, self.1 + rhs.1)
    }

    /// Scalar multiplication of a movement delta.
    pub fn mul(self, rhs: i32) -> (r: Pos)
        requires
            i32::MIN <= self.0 * rhs <= i32::MAX,
            i32::MIN <= self.1 * rhs <= i32::MAX,
        ensures
            r.0 == self.0 * rhs,
            r.1 == self.1 * rhs,
    {
        Pos(self.0 * rhs, self.1 * rhs)
    }
}

} // verus!
