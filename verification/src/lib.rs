//! Simulation core of a grid-based tower-defense game.
//!
//! The core keeps authoritative game state (grid, towers, enemies,
//! projectiles, economy) and advances it deterministically on discrete
//! time steps. Geometry is exact: continuous positions are integer
//! *world units* (one grid cell is `CELL_WORLD` units on a side), time
//! is integer milliseconds, and rates are scaled integers, so every
//! rule of the simulation is stated and proved over plain integers.

use vstd::prelude::*;

pub mod geometry;
pub mod position;
pub mod grid;
pub mod pathfinding;
pub mod waypoints;
pub mod tower;
pub mod effects;
pub mod enemy;
pub mod projectile;
pub mod game;
pub mod simulation;

verus! {

/// Side length of one grid cell in world units (1000 world units per pixel
/// of the reference presentation, 40 pixels per cell).
pub const CELL_WORLD: i64 = 40000;

/// Half a cell side: offset from a cell's corner to its center.
pub const HALF_CELL_WORLD: i64 = 20000;

/// Bound on every world coordinate the simulation produces: cell centers
/// of arbitrary `i32` cells stay below it, and movement only ever places
/// an entity between its old position and its target.
pub const WORLD_LIMIT: i64 = 100_000_000_000_000;

} // verus!
