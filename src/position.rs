use vstd::prelude::*;

verus! {

/// One cell of the block grid.
#[derive(Clone, Copy, Debug, PartialEq, Eq, Structural)]
pub struct Position {
    pub x: i32,
    pub y: i32,
    pub z: i32,
}

/// The cell at the given mathematical coordinates (meaningful when each fits in `i32`).
pub open spec fn pos(x: int, y: int, z: int) -> Position {
    Position { x: x as i32, y: y as i32, z: z as i32 }
}

/// Whether `v` is a value of `i32`.
pub open spec fn fits(v: int) -> bool {
    i32::MIN <= v <= i32::MAX
}

impl Position {
    /// A cell from its three coordinates.
    pub fn new(x: i32, y: i32, z: i32) -> (r: Position)
        ensures
            r == (Position { x, y, z }),
    {
        Position { x, y, z }
    }
}

} // verus!
