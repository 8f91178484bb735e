//! Board coordinates: tiles, sides, and the tile metric.
use vstd::prelude::*;
use crate::arith::{abs_int, max_int};

verus! {

/// Which team a unit, artifact or item belongs to.
#[derive(Debug, Clone, Copy, PartialEq, Eq, Structural, Hash)]
pub enum Side {
    Player,
    Opponent,
}

/// A tile on the battlefield grid.
#[derive(Debug, Clone, Copy, PartialEq, Eq, Structural, Hash)]
pub struct Position {
    pub x: i32,
    pub y: i32,
}

/// Chebyshev (king-move) distance between two tiles.
pub open spec fn chebyshev_spec(a: Position, b: Position) -> int {
    max_int(abs_int(a.x - b.x), abs_int(a.y - b.y))
}

impl Position {
    pub fn new(x: i32, y: i32) -> (p: Position)
        ensures
            p.x == x,
            p.y == y,
    {
        Position { x, y }
    }

    /// Chebyshev distance to `other`, computed without overflow.
    pub fn chebyshev(&self, other: &Position) -> (d: i64)
        ensures
            d == chebyshev_spec(*self, *other),
    {
        let dx: i64 = self.x as i64 - other.x as i64;
        let dy: i64 = self.y as i64 - other.y as i64;
        let ax: i64 = if dx >= 0 { dx } else { -dx };
        let ay: i64 = if dy >= 0 { dy } else { -dy };
        if ax >= ay { ax } else { ay }
    }
}

} // verus!
