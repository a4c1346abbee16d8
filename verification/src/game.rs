//! The authoritative game state and the per-tick simulation.
//!
//! `GameState` owns the grid, the towers, the enemies and the economy;
//! `Game` adds projectiles and transient effects and advances everything
//! in a fixed phase order each tick. The central structural invariant:
//! a cell is blocked exactly when exactly one tower stands on it, every
//! stored enemy is alive, and entity ids are strictly increasing (so
//! ids are unique, never reused, and iteration order is creation
//! order).

use vstd::prelude::*;
use crate::geometry::{dist_sq, pos_in_cell_range};
use crate::grid::Grid;
use crate::position::{Position, cell_center};
use crate::pathfinding::{path_ok, reachable, no_shorter};
use crate::waypoints::waypoints_of;
use crate::tower::{Tower, TowerType, spec_cost};
use crate::enemy::{Enemy, grid_cell_of};

verus! {

/// Grid width of a fresh game, in cells.
pub const GRID_WIDTH: i32 = 20;

/// Grid height of a fresh game, in cells.
pub const GRID_HEIGHT: i32 = 15;

/// Gold at the start of a game.
pub const STARTING_GOLD: u64 = 200;

/// Defender health at the start of a game.
pub const STARTING_HEALTH: i64 = 20;

/// Gold awarded for each enemy killed.
pub const KILL_REWARD: u64 = 10;

/// Duration of the slow effect applied by a Slow tower, in milliseconds.
pub const SLOW_DURATION_MS: u32 = 2000;

/// Speed multiplier of the slow effect, in thousandths.
pub const SLOW_MULTIPLIER: u32 = 500;

/// The authoritative simulation state.
pub struct GameState {
    pub grid: Grid,
    pub towers: Vec<Tower>,
    pub enemies: Vec<Enemy>,
    pub spawn_point: Position,
    pub goal_point: Position,
    pub next_tower_id: u64,
    pub next_enemy_id: u64,
    pub gold: u64,
    pub health: i64,
    pub paused: bool,
}

/// How one enemy relates to its pre-placement self after paths were
/// recomputed: identity and combat state are untouched; the path was
/// replaced by the turn points of a shortest walkable path exactly when
/// the goal is reachable from the enemy's current cell, and kept
/// unchanged otherwise.
pub open spec fn repathed(e_old: Enemy, e_new: Enemy, g: Grid, goal: Position) -> bool {
    &&& e_new.id == e_old.id
    &&& e_new.x == e_old.x
    &&& e_new.y == e_old.y
    &&& e_new.speed == e_old.speed
    &&& e_new.health == e_old.health
    &&& e_new.max_health == e_old.max_health
    &&& e_new.slow_duration == e_old.slow_duration
    &&& e_new.slow_multiplier == e_old.slow_multiplier
    &&& reachable(g, grid_cell_of(e_old), goal) ==> {
        &&& e_new.current_waypoint == 0
        &&& exists|full: Seq<Position>|
            #[trigger] path_ok(g, grid_cell_of(e_old), goal, full) && no_shorter(
                g,
                grid_cell_of(e_old),
                goal,
                full.len() - 1,
            ) && e_new.path@ == waypoints_of(full)
    }
    &&& !reachable(g, grid_cell_of(e_old), goal) ==> e_new.path@ == e_old.path@
        && e_new.current_waypoint == e_old.current_waypoint
    &&& e_new.wf()
}

impl GameState {
    /// Structural soundness of the state: strictly increasing entity
    /// ids below the allocators, all enemies well-formed and alive, and
    /// the grid-tower correspondence — a cell is blocked exactly when
    /// exactly one tower occupies it.
    pub open spec fn wf(self) -> bool {
        &&& forall|i: int|
            0 <= i < self.towers@.len() ==> (#[trigger] self.towers@[i]).id < self.next_tower_id
        &&& forall|i: int, j: int|
            0 <= i < j < self.towers@.len() ==> self.towers@[i].id < self.towers@[j].id
        &&& forall|i: int|
            0 <= i < self.enemies@.len() ==> (#[trigger] self.enemies@[i]).id
                < self.next_enemy_id
        &&& forall|i: int, j: int|
            0 <= i < j < self.enemies@.len() ==> self.enemies@[i].id < self.enemies@[j].id
        &&& forall|i: int|
            0 <= i < self.enemies@.len() ==> (#[trigger] self.enemies@[i]).wf()
                && self.enemies@[i].health > 0
        &&& forall|i: int|
            0 <= i < self.towers@.len() ==> self.grid.in_bounds(
                (#[trigger] self.towers@[i]).position,
            ) && !self.grid.walkable(self.towers@[i].position)
        &&& forall|p: Position|
            self.grid.in_bounds(p) && !(#[trigger] self.grid.walkable(p)) ==> (exists|i: int|
                0 <= i < self.towers@.len() && (#[trigger] self.towers@[i]).position == p)
        &&& forall|i: int, j: int|
            0 <= i < j < self.towers@.len() ==> self.towers@[i].position
                != self.towers@[j].position
    }

    /// A fresh game: the standard grid, no entities, spawn on the left
    /// and goal on the right of the middle row, starting economy.
    pub fn new() -> (s: GameState)
        ensures
            s.grid.width == GRID_WIDTH,
            s.grid.height == GRID_HEIGHT,
            forall|p: Position| #[trigger] s.grid.walkable(p) <==> s.grid.in_bounds(p),
            s.towers@.len() == 0,
            s.enemies@.len() == 0,
            s.spawn_point == (Position { x: 0, y: 7 }),
            s.goal_point == (Position { x: 19, y: 7 }),
            s.next_tower_id == 0,
            s.next_enemy_id == 0,
            s.gold == STARTING_GOLD,
            s.health == STARTING_HEALTH,
            !s.paused,
            s.wf(),
    {
        GameState {
            grid: Grid::new(GRID_WIDTH, GRID_HEIGHT),
            towers: Vec::new(),
            enemies: Vec::new(),
            spawn_point: Position { x: 0, y: 7 },
            goal_point: Position { x: 19, y: 7 },
            next_tower_id: 0,
            next_enemy_id: 0,
            gold: STARTING_GOLD,
            health: STARTING_HEALTH,
            paused: false,
        }
    }

    /// Places a tower: requires enough gold and a currently walkable
    /// (hence unoccupied, in-bounds) cell. On success the cost is
    /// deducted, the cell is blocked, and every enemy's path is
    /// recomputed from its current cell; an enemy that can no longer
    /// reach the goal keeps its stale path and walks on (absence of a
    /// path is never fatal). On failure nothing changes at all.
    pub fn place_tower(&mut self, tower_type: TowerType, position: Position) -> (placed: bool)
        requires
            old(self).wf(),
        ensures
            placed == (spec_cost(tower_type) <= old(self).gold && old(self).grid.walkable(position)
                && old(self).next_tower_id < u64::MAX),
            !placed ==> *final(self) == *old(self),
            placed ==> {
                &&& final(self).towers@ == old(self).towers@.push(
                    Tower {
                        id: old(self).next_tower_id,
                        tower_type,
                        position,
                        cooldown_remaining: 0,
                        target_id: None,
                        aim_dx: 1,
                        aim_dy: 0,
                    },
                )
                &&& final(self).next_tower_id == old(self).next_tower_id + 1
                &&& final(self).gold == old(self).gold - spec_cost(tower_type)
                &&& final(self).grid.width == old(self).grid.width
                &&& final(self).grid.height == old(self).grid.height
                &&& forall|q: Position| #[trigger] final(self).grid.walkable(q)
                    == (old(self).grid.walkable(q) && q != position)
                &&& final(self).enemies@.len() == old(self).enemies@.len()
                &&& forall|i: int|
                    0 <= i < old(self).enemies@.len() ==> repathed(
                        old(self).enemies@[i],
                        #[trigger] final(self).enemies@[i],
                        final(self).grid,
                        old(self).goal_point,
                    )
            },
            final(self).spawn_point == old(self).spawn_point,
            final(self).goal_point == old(self).goal_point,
            final(self).next_enemy_id == old(self).next_enemy_id,
            final(self).health == old(self).health,
            final(self).paused == old(self).paused,
            final(self).wf(),
    {
        let cost = tower_type.cost();
        if self.gold < cost {
            return false;
        }
        if !self.grid.is_walkable(&position) {
            return false;
        }
        if self.next_tower_id == 18_446_744_073_709_551_615u64 {
            return false;
        }
        let tower = Tower::new(self.next_tower_id, tower_type, position);
        self.towers.push(tower);
        self.next_tower_id = self.next_tower_id + 1;
        self.gold = self.gold - cost;
        self.grid.set_walkable(&position, false);
        proof {
            let s = *self;
            let o = *old(self);
            assert forall|p: Position|
                s.grid.in_bounds(p) && !(#[trigger] s.grid.walkable(p)) implies (exists|i: int|
                0 <= i < s.towers@.len() && (#[trigger] s.towers@[i]).position == p) by {
                if p == position {
                    assert(s.towers@[s.towers@.len() - 1].position == p);
                } else {
                    let i = choose|i: int|
                        0 <= i < o.towers@.len() && (#[trigger] o.towers@[i]).position == p;
                    assert(s.towers@[i].position == p);
                }
            }
        }
        // Recompute every enemy's path against the new grid.
        let goal = self.goal_point;
        let mut pending: Vec<Enemy> = Vec::new();
        core::mem::swap(&mut pending, &mut self.enemies);
        let ghost before = pending@;
        let ghost g_new = self.grid;
        while pending.len() > 0
            invariant
                g_new == self.grid,
                goal == self.goal_point,
                self.towers@ == old(self).towers@.push(tower),
                self.next_tower_id == old(self).next_tower_id + 1,
                self.gold == old(self).gold - spec_cost(tower_type),
                self.spawn_point == old(self).spawn_point,
                self.goal_point == old(self).goal_point,
                self.next_enemy_id == old(self).next_enemy_id,
                self.health == old(self).health,
                self.paused == old(self).paused,
                self.enemies@.len() + pending@.len() == before.len(),
                pending@ == before.subrange(
                    before.len() - pending@.len(),
                    before.len() as int,
                ),
                forall|i: int|
                    0 <= i < self.enemies@.len() ==> repathed(
                        before[i],
                        #[trigger] self.enemies@[i],
                        g_new,
                        goal,
                    ),
                forall|i: int| 0 <= i < before.len() ==> (#[trigger] before[i]).wf(),
            decreases pending@.len(),
        {
            let ghost k = before.len() - pending@.len();
            let mut e = pending.remove(0);
            proof {
                assert(e == before[k]);
            }
            e.recalculate_path(&self.grid, goal);
            self.enemies.push(e);
        }
        true
    }

    /// Spawns an enemy at the spawn point, headed for the goal. Fails
    /// cleanly — no enemy added, no id consumed, nothing changed — when
    /// no walkable route exists from spawn to goal.
    pub fn spawn_enemy(&mut self) -> (spawned: bool)
        requires
            old(self).wf(),
        ensures
            spawned == (reachable(old(self).grid, old(self).spawn_point, old(self).goal_point)
                && old(self).next_enemy_id < u64::MAX),
            !spawned ==> *final(self) == *old(self),
            spawned ==> {
                &&& final(self).enemies@.len() == old(self).enemies@.len() + 1
                &&& final(self).enemies@.subrange(0, old(self).enemies@.len() as int) == old(
                    self,
                ).enemies@
                &&& {
                    let e = final(self).enemies@[old(self).enemies@.len() as int];
                    &&& e.id == old(self).next_enemy_id
                    &&& e.x == cell_center(old(self).spawn_point.x as int)
                    &&& e.y == cell_center(old(self).spawn_point.y as int)
                    &&& e.current_waypoint == 0
                    &&& e.health == crate::enemy::ENEMY_HEALTH
                    &&& e.max_health == crate::enemy::ENEMY_HEALTH
                    &&& e.speed == crate::enemy::ENEMY_SPEED
                    &&& e.slow_duration == 0
                    &&& e.slow_multiplier == 1000
                    &&& e.path@.len() >= 1
                    &&& e.path@[0] == old(self).spawn_point
                    &&& e.path@[e.path@.len() - 1] == old(self).goal_point
                    &&& exists|full: Seq<Position>|
                        #[trigger] path_ok(
                            old(self).grid,
                            old(self).spawn_point,
                            old(self).goal_point,
                            full,
                        ) && no_shorter(
                            old(self).grid,
                            old(self).spawn_point,
                            old(self).goal_point,
                            full.len() - 1,
                        ) && e.path@ == waypoints_of(full)
                }
                &&& final(self).next_enemy_id == old(self).next_enemy_id + 1
            },
            final(self).grid == old(self).grid,
            final(self).towers@ == old(self).towers@,
            final(self).spawn_point == old(self).spawn_point,
            final(self).goal_point == old(self).goal_point,
            final(self).next_tower_id == old(self).next_tower_id,
            final(self).gold == old(self).gold,
            final(self).health == old(self).health,
            final(self).paused == old(self).paused,
            final(self).wf(),
    {
        if self.next_enemy_id == 18_446_744_073_709_551_615u64 {
            return false;
        }
        match Enemy::new(self.next_enemy_id, self.spawn_point, self.goal_point, &self.grid) {
            Some(enemy) => {
                self.enemies.push(enemy);
                self.next_enemy_id = self.next_enemy_id + 1;
                true
            },
            None => false,
        }
    }

    /// Removes every tower and every enemy, restoring the walkability
    /// of each occupied cell; gold, health, id counters and the pause
    /// flag are untouched.
    /// Sets the pause flag; a paused game skips its ticks entirely.
    pub fn set_paused(&mut self, paused: bool)
        ensures
            *final(self) == (GameState { paused, ..*old(self) }),
    {
        self.paused = paused;
    }

    /// Flips the pause flag.
    pub fn toggle_paused(&mut self)
        ensures
            *final(self) == (GameState { paused: !old(self).paused, ..*old(self) }),
    {
        self.paused = !self.paused;
    }

    pub fn clear_all(&mut self)
        requires
            old(self).wf(),
        ensures
            final(self).towers@.len() == 0,
            final(self).enemies@.len() == 0,
            final(self).grid.width == old(self).grid.width,
            final(self).grid.height == old(self).grid.height,
            forall|q: Position| #[trigger] final(self).grid.walkable(q)
                <==> final(self).grid.in_bounds(q),
            final(self).spawn_point == old(self).spawn_point,
            final(self).goal_point == old(self).goal_point,
            final(self).next_tower_id == old(self).next_tower_id,
            final(self).next_enemy_id == old(self).next_enemy_id,
            final(self).gold == old(self).gold,
            final(self).health == old(self).health,
            final(self).paused == old(self).paused,
            final(self).wf(),
    {
        let ghost towers0 = self.towers@;
        let ghost grid0 = self.grid;
        let mut i: usize = 0;
        while i < self.towers.len()
            invariant
                towers0 == self.towers@,
                0 <= i <= self.towers@.len(),
                self.grid.width == grid0.width,
                self.grid.height == grid0.height,
                self.enemies@ == old(self).enemies@,
                self.spawn_point == old(self).spawn_point,
                self.goal_point == old(self).goal_point,
                self.next_tower_id == old(self).next_tower_id,
                self.next_enemy_id == old(self).next_enemy_id,
                self.gold == old(self).gold,
                self.health == old(self).health,
                self.paused == old(self).paused,
                forall|q: Position| #[trigger] self.grid.walkable(q) == (grid0.walkable(q)
                    || (grid0.in_bounds(q) && exists|j: int|
                        0 <= j < i && (#[trigger] towers0[j]).position == q)),
            decreases self.towers@.len() - i,
        {
            let pos = self.towers[i].position;
            self.grid.set_walkable(&pos, true);
            proof {
                assert forall|q: Position| #[trigger] self.grid.walkable(q) == (grid0.walkable(q)
                    || (grid0.in_bounds(q) && exists|j: int|
                        0 <= j < i + 1 && (#[trigger] towers0[j]).position == q)) by {
                    if q == pos {
                        assert(towers0[i as int].position == q);
                    } else {
                        if grid0.in_bounds(q) && exists|j: int|
                            0 <= j < i + 1 && (#[trigger] towers0[j]).position == q {
                            let j = choose|j: int|
                                0 <= j < i + 1 && (#[trigger] towers0[j]).position == q;
                            assert(j < i);
                        }
                    }
                }
            }
            i = i + 1;
        }
        proof {
            assert forall|q: Position| #[trigger] self.grid.walkable(q) <==> self.grid.in_bounds(
                q,
            ) by {
                if self.grid.in_bounds(q) && !grid0.walkable(q) {
                    let j = choose|j: int|
                        0 <= j < towers0.len() && (#[trigger] towers0[j]).position == q;
                    assert(self.grid.walkable(q));
                }
            }
        }
        self.towers.clear();
        self.enemies.clear();
    }
}

} // verus!
