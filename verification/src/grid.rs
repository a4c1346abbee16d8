//! Binary walkability map over integer cell coordinates.
//!
//! Cells are walkable by default; out-of-bounds positions always count
//! as not walkable. The map is stored sparsely, keyed by the cell's row-
//! major index.

use vstd::prelude::*;
use std::collections::HashMap;
use crate::position::Position;

verus! {

broadcast use vstd::std_specs::hash::group_hash_axioms;

/// The walkability map. `cells` only holds explicitly set cells; a cell
/// that was never set is walkable.
pub struct Grid {
    pub width: i32,
    pub height: i32,
    pub cells: HashMap<u64, bool>,
}

impl Grid {
    /// Whether `p` lies inside the grid rectangle.
    pub open spec fn in_bounds(self, p: Position) -> bool {
        0 <= p.x < self.width && 0 <= p.y < self.height
    }

    /// Row-major storage index of an in-bounds cell.
    pub open spec fn cell_key(self, p: Position) -> u64 {
        (p.y * self.width + p.x) as u64
    }

    /// Whether the cell at `p` can be walked through: in bounds, and not
    /// explicitly marked blocked.
    pub open spec fn walkable(self, p: Position) -> bool {
        self.in_bounds(p) && (self.cells@.contains_key(self.cell_key(p))
            ==> self.cells@[self.cell_key(p)])
    }

    /// A fresh grid: every in-bounds cell is walkable.
    pub fn new(width: i32, height: i32) -> (g: Grid)
        ensures
            g.width == width,
            g.height == height,
            g.cells@ == Map::<u64, bool>::empty(),
            forall|p: Position| #[trigger] g.walkable(p) <==> g.in_bounds(p),
    {
        Grid { width, height, cells: HashMap::new() }
    }

    /// Storage index of an in-bounds cell, computed without overflow.
    pub(crate) fn key_of(&self, pos: &Position) -> (k: u64)
        requires
            self.in_bounds(*pos),
        ensures
            k == self.cell_key(*pos),
    {
        proof {
            assert(0 <= pos.y * self.width + pos.x < 0x4000_0000_0000_0000int
                && (pos.y as u64) * (self.width as u64) == (pos.y * self.width) as u64)
                by (nonlinear_arith)
                requires
                    0 <= pos.x < self.width,
                    0 <= pos.y < self.height,
                    self.width < 0x8000_0000,
                    self.height < 0x8000_0000,
            ;
        }
        pos.y as u64 * self.width as u64 + pos.x as u64
    }

    /// Whether the cell at `pos` is walkable; false out of bounds.
    pub fn is_walkable(&self, pos: &Position) -> (r: bool)
        ensures
            r == self.walkable(*pos),
    {
        if pos.x < 0 || pos.x >= self.width || pos.y < 0 || pos.y >= self.height {
            return false;
        }
        let key = self.key_of(pos);
        match self.cells.get(&key) {
            Some(b) => *b,
            None => true,
        }
    }

    /// Overwrites the walkability of an in-bounds cell; does nothing for
    /// an out-of-bounds position. Exactly the one cell changes.
    pub fn set_walkable(&mut self, pos: &Position, walkable: bool)
        ensures
            final(self).width == old(self).width,
            final(self).height == old(self).height,
            forall|q: Position| #[trigger] final(self).walkable(q)
                == if old(self).in_bounds(*pos) && q == *pos {
                    old(self).in_bounds(*pos) && walkable
                } else {
                    old(self).walkable(q)
                },
            final(self).walkable(*pos) == (old(self).in_bounds(*pos) && walkable),
    {
        if pos.x < 0 || pos.x >= self.width || pos.y < 0 || pos.y >= self.height {
            return;
        }
        let key = self.key_of(pos);
        self.cells.insert(key, walkable);
        proof {
            assert forall|q: Position| #[trigger] final(self).walkable(q)
                == if old(self).in_bounds(*pos) && q == *pos {
                    old(self).in_bounds(*pos) && walkable
                } else {
                    old(self).walkable(q)
                } by {
                if q != *pos && old(self).in_bounds(q) && old(self).cell_key(q) == old(
                    self,
                ).cell_key(*pos) {
                    lemma_cell_key_injective(*old(self), q, *pos);
                }
            }
        }
    }
}

/// Distinct in-bounds cells have distinct row-major indices.
pub proof fn lemma_cell_key_injective(g: Grid, p: Position, q: Position)
    requires
        g.in_bounds(p),
        g.in_bounds(q),
        g.cell_key(p) == g.cell_key(q),
    ensures
        p == q,
{
    assert(0 <= p.y * g.width + p.x < 0x4000_0000_0000_0000int && 0 <= q.y * g.width + q.x
        < 0x4000_0000_0000_0000int) by (nonlinear_arith)
        requires
            0 <= p.x < g.width,
            0 <= p.y < g.height,
            0 <= q.x < g.width,
            0 <= q.y < g.height,
            g.width < 0x8000_0000,
            g.height < 0x8000_0000,
    ;
    assert(p.y * g.width + p.x == q.y * g.width + q.x);
    assert(p.x == q.x && p.y == q.y) by (nonlinear_arith)
        requires
            0 <= p.x < g.width,
            0 <= q.x < g.width,
            p.y * g.width + p.x == q.y * g.width + q.x,
    ;
}

} // verus!
