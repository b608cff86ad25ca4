//! Cells of the grid and the arithmetic of their coordinates.

use vstd::prelude::*;

verus! {

/// A cell coordinate on the grid. `x` grows to the right, `y` grows downward.
#[derive(Clone, Copy, Debug, PartialEq, Eq, Hash, Structural)]
pub struct Pos {
    pub x: i32,
    pub y: i32,
}

/// Identifies an entity that lives outside this library.
pub type EntityId = u64;

/// Identifies an object that lives outside this library.
pub type ObjectId = u64;

impl Pos {
    pub fn new(x: i32, y: i32) -> (p: Pos)
        ensures
            p.x == x,
            p.y == y,
    {
        Pos { x, y }
    }

    pub fn to_tuple(&self) -> (t: (i32, i32))
        ensures
            t.0 == self.x,
            t.1 == self.y,
    {
        (self.x, self.y)
    }
}

impl From<(i32, i32)> for Pos {
    fn from(pair: (i32, i32)) -> (p: Pos) {
        Pos { x: pair.0, y: pair.1 }
    }
}

impl vstd::std_specs::convert::FromSpecImpl<(i32, i32)> for Pos {
    open spec fn obeys_from_spec() -> bool {
        true
    }

    open spec fn from_spec(pair: (i32, i32)) -> Pos {
        Pos { x: pair.0, y: pair.1 }
    }
}

/// The sign of `v`: -1, 0 or 1.
pub open spec fn sign_of(v: int) -> int {
    if v > 0 {
        1
    } else if v < 0 {
        -1
    } else {
        0
    }
}

/// The coordinate `k` cells from `from` in the direction of `toward`; `from`
/// itself when the two are equal.
pub open spec fn advance(from: int, toward: int, k: int) -> int {
    if toward > from {
        from + k
    } else if toward < from {
        from - k
    } else {
        from
    }
}

/// The absolute value of `v`.
pub open spec fn magnitude(v: int) -> int {
    if v < 0 {
        -v
    } else {
        v
    }
}

/// Straight-line distance on the grid: the larger of the two axis distances.
/// It is the number of steps of the rasterized line between the two cells.
pub open spec fn chebyshev(a: Pos, b: Pos) -> int {
    if magnitude(a.x - b.x) > magnitude(a.y - b.y) {
        magnitude(a.x - b.x)
    } else {
        magnitude(a.y - b.y)
    }
}

/// Whether `x` and `y` both fit a coordinate.
pub open spec fn fits(x: int, y: int) -> bool {
    i32::MIN <= x <= i32::MAX && i32::MIN <= y <= i32::MAX
}

/// The cell at `(x, y)`, for coordinates that fit.
pub open spec fn cell(x: int, y: int) -> Pos {
    Pos { x: x as i32, y: y as i32 }
}

} // verus!
