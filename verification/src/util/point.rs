use vstd::prelude::*;

verus! {

/// A pair of coordinates on the board or in the world.
#[derive(Clone, Copy, PartialEq, Eq, Structural, Default, Debug)]
pub struct Point<T> {
    pub x: T,
    pub y: T,
}

impl<T> Point<T> {
    pub fn new(x: T, y: T) -> (p: Self)
        ensures
            p.x == x,
            p.y == y,
    {
        Point { x, y }
    }
}

impl Point<usize> {
    /// Row-major index of this position in a grid `width` cells wide.
    pub open spec fn index_spec(self, width: usize) -> int {
        self.x + self.y * width
    }

    pub fn index(self, width: usize) -> (i: usize)
        requires
            self.x + self.y * width <= usize::MAX,
        ensures
            i == self.index_spec(width),
    {
        proof {
            vstd::arithmetic::mul::lemma_mul_nonnegative(self.y as int, width as int);
        }
        self.x + self.y * width
    }
}

} // verus!
