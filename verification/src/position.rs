//! Integer grid coordinates and their relation to continuous world
//! coordinates.

use vstd::prelude::*;
use vstd::arithmetic::div_mod::{lemma_fundamental_div_mod, lemma_div_multiples_vanish_fancy};
use crate::{CELL_WORLD, HALF_CELL_WORLD};

verus! {

/// A cell coordinate on the grid.
#[derive(Debug, Clone, Copy, PartialEq, Eq, Structural, Hash)]
pub struct Position {
    pub x: i32,
    pub y: i32,
}

/// Absolute value of an integer.
pub open spec fn abs_val(v: int) -> int {
    if v < 0 {
        -v
    } else {
        v
    }
}

/// Manhattan (taxicab) distance between two cells.
pub open spec fn manhattan(a: Position, b: Position) -> int {
    abs_val(a.x - b.x) + abs_val(a.y - b.y)
}

/// Whether two cells are 4-connected neighbors: they differ by exactly
/// one step along exactly one axis.
pub open spec fn adjacent(a: Position, b: Position) -> bool {
    manhattan(a, b) == 1
}

/// World coordinate of a cell's corner along one axis.
pub open spec fn cell_corner(c: int) -> int {
    c * CELL_WORLD
}

/// World coordinate of a cell's center along one axis.
pub open spec fn cell_center(c: int) -> int {
    c * CELL_WORLD + HALF_CELL_WORLD
}

impl Position {
    pub fn new(x: i32, y: i32) -> (p: Position)
        ensures
            p == (Position { x, y }),
    {
        Position { x, y }
    }

    /// World coordinates of this cell's top-left corner.
    pub fn to_world(&self) -> (w: (i64, i64))
        ensures
            w.0 == cell_corner(self.x as int),
            w.1 == cell_corner(self.y as int),
            crate::geometry::in_world(w.0 as int),
            crate::geometry::in_world(w.1 as int),
    {
        (self.x as i64 * CELL_WORLD, self.y as i64 * CELL_WORLD)
    }

    /// World coordinates of this cell's center.
    pub fn world_center(&self) -> (w: (i64, i64))
        ensures
            w.0 == cell_center(self.x as int),
            w.1 == cell_center(self.y as int),
            crate::geometry::in_world(w.0 as int),
            crate::geometry::in_world(w.1 as int),
    {
        (self.x as i64 * CELL_WORLD + HALF_CELL_WORLD, self.y as i64 * CELL_WORLD + HALF_CELL_WORLD)
    }

    /// The cell containing a world point: floor division by the cell size
    /// on each axis.
    pub fn from_world(wx: i64, wy: i64) -> (p: Position)
        requires
            (-2147483648 * CELL_WORLD) <= wx as int,
            (wx as int) < 2147483648 * CELL_WORLD,
            (-2147483648 * CELL_WORLD) <= wy as int,
            (wy as int) < 2147483648 * CELL_WORLD,
        ensures
            p.x as int == (wx as int) / (CELL_WORLD as int),
            p.y as int == (wy as int) / (CELL_WORLD as int),
    {
        Position { x: Self::floor_cell(wx), y: Self::floor_cell(wy) }
    }

    /// Floor division of one world axis by the cell size, via a shift
    /// into nonnegative range so that unsigned division applies.
    fn floor_cell(w: i64) -> (c: i32)
        requires
            (-2147483648 * CELL_WORLD) <= w as int,
            (w as int) < 2147483648 * CELL_WORLD,
        ensures
            c as int == (w as int) / (CELL_WORLD as int),
    {
        let shifted = (w + 2147483648i64 * CELL_WORLD) as u64;
        let q = shifted / (CELL_WORLD as u64);
        proof {
            let wi = w as int;
            let cw = CELL_WORLD as int;
            lemma_fundamental_div_mod(wi, cw);
            lemma_div_multiples_vanish_fancy(wi / cw + 2147483648, wi % cw, cw);
            assert(cw * (wi / cw + 2147483648) + wi % cw == wi + 2147483648 * cw)
                by (nonlinear_arith)
                requires
                    cw * (wi / cw) + wi % cw == wi,
            ;
        }
        (q as i64 - 2147483648i64) as i32
    }

    /// Euclidean distance to another cell, floored, in thousandths of a
    /// cell (the same scale the tower ranges use).
    pub fn distance(&self, other: &Position) -> (d: u64)
        ensures
            d == crate::geometry::sqrt_floor(
                crate::geometry::dist_sq(self.x as int, self.y as int, other.x as int, other.y as int)
                    * 1_000_000,
            ),
    {
        let dx = (self.x as i64 - other.x as i64) as i128;
        let dy = (self.y as i64 - other.y as i64) as i128;
        proof {
            assert(0 <= dx * dx <= 0x1_0000_0000_0000_0000_0000_0000int && 0 <= dy * dy
                <= 0x1_0000_0000_0000_0000_0000_0000int) by (nonlinear_arith)
                requires
                    -0x1_0000_0000 <= dx <= 0x1_0000_0000,
                    -0x1_0000_0000 <= dy <= 0x1_0000_0000,
            ;
        }
        let d2: u128 = (dx * dx + dy * dy) as u128 * 1_000_000;
        let r = crate::geometry::isqrt_u128(d2);
        proof {
            crate::geometry::lemma_sqrt_floor_bounds(d2 as int);
            assert(r * r <= d2);
            assert(r < 0x1_0000_0000_0000_0000);
        }
        r as u64
    }

    /// Manhattan distance to another cell.
    pub fn manhattan_distance(&self, other: &Position) -> (d: i64)
        ensures
            d == manhattan(*self, *other),
    {
        let dx = self.x as i64 - other.x as i64;
        let dy = self.y as i64 - other.y as i64;
        let ax = if dx < 0 { -dx } else { dx };
        let ay = if dy < 0 { -dy } else { dy };
        ax + ay
    }

    /// The four 4-connected neighbor cells, in the fixed order
    /// right, left, down, up. Every cell adjacent to `self` is listed.
    pub fn neighbors(&self) -> (ns: Vec<Position>)
        requires
            -2147483648 < self.x < 2147483647,
            -2147483648 < self.y < 2147483647,
        ensures
            ns@.len() == 4,
            ns@[0] == (Position { x: (self.x + 1) as i32, y: self.y }),
            ns@[1] == (Position { x: (self.x - 1) as i32, y: self.y }),
            ns@[2] == (Position { x: self.x, y: (self.y + 1) as i32 }),
            ns@[3] == (Position { x: self.x, y: (self.y - 1) as i32 }),
            forall|q: Position| adjacent(*self, q) <==> (exists|i: int|
                0 <= i < 4 && ns@[i] == q),
            forall|i: int| 0 <= i < 4 ==> adjacent(*self, #[trigger] ns@[i]),
    {
        let mut ns: Vec<Position> = Vec::new();
        ns.push(Position { x: self.x + 1, y: self.y });
        ns.push(Position { x: self.x - 1, y: self.y });
        ns.push(Position { x: self.x, y: self.y + 1 });
        ns.push(Position { x: self.x, y: self.y - 1 });
        proof {
            assert forall|q: Position| adjacent(*self, q) implies (exists|i: int|
                0 <= i < 4 && ns@[i] == q) by {
                if q.x == self.x + 1 && q.y == self.y {
                    assert(ns@[0] == q);
                } else if q.x == self.x - 1 && q.y == self.y {
                    assert(ns@[1] == q);
                } else if q.x == self.x && q.y == self.y + 1 {
                    assert(ns@[2] == q);
                } else {
                    assert(ns@[3] == q);
                }
            }
        }
        ns
    }
}

/// Triangle inequality for the Manhattan distance.
pub proof fn lemma_manhattan_triangle(a: Position, b: Position, c: Position)
    ensures
        manhattan(a, c) <= manhattan(a, b) + manhattan(b, c),
{
}

/// Round trip between grid and world coordinates: the cell containing
/// the world-space center of any cell `p` is `p` itself, on each axis —
/// floor division by the cell size undoes the conversion to centers.
pub proof fn lemma_world_round_trip(p: Position)
    ensures
        cell_center(p.x as int) / (CELL_WORLD as int) == p.x as int,
        cell_center(p.y as int) / (CELL_WORLD as int) == p.y as int,
{
    assert(cell_center(p.x as int) == (CELL_WORLD as int) * (p.x as int) + HALF_CELL_WORLD as int)
        by (nonlinear_arith);
    assert(cell_center(p.y as int) == (CELL_WORLD as int) * (p.y as int) + HALF_CELL_WORLD as int)
        by (nonlinear_arith);
    lemma_div_multiples_vanish_fancy(p.x as int, HALF_CELL_WORLD as int, CELL_WORLD as int);
    lemma_div_multiples_vanish_fancy(p.y as int, HALF_CELL_WORLD as int, CELL_WORLD as int);
}

} // verus!
