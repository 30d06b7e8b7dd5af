use vstd::prelude::*;

verus! {

/// An integer coordinate on (or off) a grid.
#[derive(Debug, Default, Clone, Copy, PartialEq, Eq, Structural)]
pub struct Pos {
    pub x: isize,
    pub y: isize,
}

impl Pos {
    pub fn new(x: isize, y: isize) -> (r: Pos)
        ensures
            r.x == x,
            r.y == y,
    {
        Pos { x, y }
    }

    /// The position shifted by `(dx, dy)`.
    pub fn rel(&self, dx: isize, dy: isize) -> (r: Pos)
        requires
            isize::MIN <= self.x + dx <= isize::MAX,
            isize::MIN <= self.y + dy <= isize::MAX,
        ensures
            r.x == self.x + dx,
            r.y == self.y + dy,
    {
        Pos { x: self.x + dx, y: self.y + dy }
    }
}

} // verus!
