//! Enemies: continuous world position, a waypoint path toward the
//! goal, health, speed and a timed slow effect.

use vstd::prelude::*;
use crate::CELL_WORLD;
use crate::geometry::{
    dist_sq, dist_sq_world, move_toward, move_toward_x, move_toward_y, pos_in_cell_range,
};
use crate::grid::Grid;
use crate::position::{Position, cell_center};
use crate::pathfinding::{path_ok, reachable, no_shorter};
use crate::waypoints::{find_waypoints, waypoints_of, lemma_waypoints_shape};

verus! {

/// Nominal enemy speed, in world units per second.
pub const ENEMY_SPEED: u32 = 50000;

/// Starting (and maximal) enemy health.
pub const ENEMY_HEALTH: u32 = 100;

/// Squared distance under which a waypoint counts as reached.
pub const WAYPOINT_REACHED_SQ: u128 = 4_000_000;

/// An enemy walking its waypoint path. `slow_multiplier` scales the
/// speed in thousandths and reverts to 1000 when `slow_duration` runs
/// out.
pub struct Enemy {
    pub id: u64,
    pub x: i64,
    pub y: i64,
    pub path: Vec<Position>,
    pub current_waypoint: usize,
    pub speed: u32,
    pub health: u32,
    pub max_health: u32,
    pub slow_duration: u32,
    pub slow_multiplier: u32,
}

/// Slow-effect duration after `delta` milliseconds elapse.
pub open spec fn slow_dur_after(e: Enemy, delta: u32) -> int {
    if e.slow_duration > 0 {
        if delta >= e.slow_duration {
            0
        } else {
            e.slow_duration - delta
        }
    } else {
        0
    }
}

/// Slow multiplier after `delta` milliseconds: reverts to neutral
/// exactly when the duration reaches zero.
pub open spec fn slow_mult_after(e: Enemy, delta: u32) -> int {
    if e.slow_duration > 0 && slow_dur_after(e, delta) == 0 {
        1000
    } else {
        e.slow_multiplier as int
    }
}

/// World-space center of the enemy's current waypoint.
pub open spec fn waypoint_target(e: Enemy) -> (int, int) {
    let w = e.path@[e.current_waypoint as int];
    (cell_center(w.x as int), cell_center(w.y as int))
}

/// Distance walked in one tick: speed, scaled by the slow multiplier in
/// thousandths, times the elapsed milliseconds.
pub open spec fn move_step_len(e: Enemy, delta: u32) -> int {
    (e.speed * slow_mult_after(e, delta) / 1000) * delta / 1000
}

/// The enemy after one tick of `delta` milliseconds: slow decay, then
/// either waypoint advancement (when within the arrival threshold) or a
/// straight move toward the current waypoint's center.
pub open spec fn stepped(e: Enemy, delta: u32) -> Enemy {
    let sd = slow_dur_after(e, delta) as u32;
    let sm = slow_mult_after(e, delta) as u32;
    if e.current_waypoint >= e.path@.len() {
        Enemy { slow_duration: sd, slow_multiplier: sm, ..e }
    } else {
        let (tx, ty) = waypoint_target(e);
        if dist_sq(e.x as int, e.y as int, tx, ty) < WAYPOINT_REACHED_SQ {
            Enemy {
                slow_duration: sd,
                slow_multiplier: sm,
                current_waypoint: (e.current_waypoint + 1) as usize,
                ..e
            }
        } else {
            let step = move_step_len(e, delta);
            Enemy {
                slow_duration: sd,
                slow_multiplier: sm,
                x: move_toward_x(e.x as int, e.y as int, tx, ty, step) as i64,
                y: move_toward_y(e.x as int, e.y as int, tx, ty, step) as i64,
                ..e
            }
        }
    }
}

/// Whether the enemy is still on its way after one tick: false exactly
/// when it has advanced past the end of its path (it leaked).
pub open spec fn still_walking(e: Enemy, delta: u32) -> bool {
    if e.current_waypoint >= e.path@.len() {
        false
    } else {
        let (tx, ty) = waypoint_target(e);
        if dist_sq(e.x as int, e.y as int, tx, ty) < WAYPOINT_REACHED_SQ {
            e.current_waypoint + 1 < e.path@.len()
        } else {
            true
        }
    }
}

/// The grid cell containing the enemy's continuous position.
pub open spec fn grid_cell_of(e: Enemy) -> Position {
    Position {
        x: ((e.x as int) / (CELL_WORLD as int)) as i32,
        y: ((e.y as int) / (CELL_WORLD as int)) as i32,
    }
}

impl Enemy {
    /// Structural soundness: the waypoint index never runs past the
    /// path, coordinates stay in the cell-addressable world range, and
    /// the slow multiplier never exceeds neutral.
    pub open spec fn wf(self) -> bool {
        &&& self.current_waypoint <= self.path@.len()
        &&& pos_in_cell_range(self.x as int)
        &&& pos_in_cell_range(self.y as int)
        &&& self.slow_multiplier <= 1000
    }

    /// Spawns an enemy at the center of `start`, walking the turn-point
    /// compression of a shortest walkable path to `goal`; fails exactly
    /// when no walkable route exists.
    pub fn new(id: u64, start: Position, goal: Position, grid: &Grid) -> (r: Option<Enemy>)
        ensures
            r.is_some() <==> reachable(*grid, start, goal),
            r matches Some(e) ==> {
                &&& e.wf()
                &&& e.id == id
                &&& e.x == cell_center(start.x as int)
                &&& e.y == cell_center(start.y as int)
                &&& e.current_waypoint == 0
                &&& e.speed == ENEMY_SPEED
                &&& e.health == ENEMY_HEALTH
                &&& e.max_health == ENEMY_HEALTH
                &&& e.slow_duration == 0
                &&& e.slow_multiplier == 1000
                &&& e.path@.len() >= 1
                &&& e.path@[0] == start
                &&& e.path@[e.path@.len() - 1] == goal
                &&& forall|i: int|
                    0 <= i < e.path@.len() ==> grid.walkable(#[trigger] e.path@[i])
                &&& exists|full: Seq<Position>|
                    #[trigger] path_ok(*grid, start, goal, full) && no_shorter(
                        *grid,
                        start,
                        goal,
                        full.len() - 1,
                    ) && e.path@ == waypoints_of(full)
            },
    {
        match find_waypoints(grid, start, goal) {
            Some(path) => {
                proof {
                    let full = choose|full: Seq<Position>|
                        #[trigger] path_ok(*grid, start, goal, full) && no_shorter(
                            *grid,
                            start,
                            goal,
                            full.len() - 1,
                        ) && path@ == waypoints_of(full);
                    lemma_waypoints_shape(*grid, start, goal, full);
                }
                let (cx, cy) = start.world_center();
                Some(
                    Enemy {
                        id,
                        x: cx,
                        y: cy,
                        path,
                        current_waypoint: 0,
                        speed: ENEMY_SPEED,
                        health: ENEMY_HEALTH,
                        max_health: ENEMY_HEALTH,
                        slow_duration: 0,
                        slow_multiplier: 1000,
                    },
                )
            },
            None => None,
        }
    }

    /// One tick: decay the slow effect, then walk toward the current
    /// waypoint, advancing past it within the arrival threshold. The
    /// result is false exactly when the enemy has passed the end of its
    /// path and so has reached the goal.
    pub fn update(&mut self, delta: u32) -> (active: bool)
        requires
            old(self).wf(),
        ensures
            *final(self) == stepped(*old(self), delta),
            active == still_walking(*old(self), delta),
            final(self).wf(),
    {
        if self.slow_duration > 0 {
            if delta >= self.slow_duration {
                self.slow_duration = 0;
                self.slow_multiplier = 1000;
            } else {
                self.slow_duration = self.slow_duration - delta;
            }
        }
        if self.current_waypoint >= self.path.len() {
            return false;
        }
        let w = self.path[self.current_waypoint];
        let (tx, ty) = w.world_center();
        let d2 = dist_sq_world(self.x, self.y, tx, ty);
        if d2 < 4_000_000 {
            self.current_waypoint = self.current_waypoint + 1;
            return self.current_waypoint < self.path.len();
        }
        proof {
            assert(self.speed as int * (self.slow_multiplier as int) <= 4_294_967_295_000int)
                by (nonlinear_arith)
                requires
                    0 <= self.speed <= 4_294_967_295,
                    0 <= self.slow_multiplier <= 1000,
            ;
        }
        let eff: u64 = self.speed as u64 * self.slow_multiplier as u64 / 1000;
        proof {
            vstd::arithmetic::div_mod::lemma_div_is_ordered(
                self.speed as int * (self.slow_multiplier as int),
                4_294_967_295_000int,
                1000,
            );
            vstd::arithmetic::div_mod::lemma_div_by_multiple(4_294_967_295int, 1000);
            assert(eff as int * (delta as int) <= 18_446_744_065_119_617_025int)
                by (nonlinear_arith)
                requires
                    0 <= eff as int <= 4_294_967_295int,
                    0 <= delta <= 4_294_967_295,
            ;
        }
        let step: u64 = eff * delta as u64 / 1000;
        let r = move_toward(self.x, self.y, tx, ty, step);
        self.x = r.0;
        self.y = r.1;
        true
    }

    /// Damage leaves health at `max(health - damage, 0)` and changes
    /// nothing else.
    pub fn take_damage(&mut self, damage: u32)
        ensures
            final(self).health == if damage >= old(self).health {
                0
            } else {
                (old(self).health - damage) as u32
            },
            *final(self) == (Enemy { health: final(self).health, ..*old(self) }),
    {
        if damage >= self.health {
            self.health = 0;
        } else {
            self.health = self.health - damage;
        }
    }

    /// An enemy is alive while its health is positive.
    pub fn is_alive(&self) -> (r: bool)
        ensures
            r == (self.health > 0),
    {
        self.health > 0
    }

    /// Applies a timed slow: the given duration and speed multiplier
    /// (in thousandths) override any previous slow.
    pub fn apply_slow(&mut self, duration: u32, multiplier: u32)
        requires
            multiplier <= 1000,
        ensures
            *final(self) == (Enemy {
                slow_duration: duration,
                slow_multiplier: multiplier,
                ..*old(self)
            }),
    {
        self.slow_duration = duration;
        self.slow_multiplier = multiplier;
    }

    /// Recomputes the waypoint path — the turn points of a shortest
    /// walkable path — from the enemy's current cell to `goal`. When no
    /// route exists the old path is kept unchanged; the enemy walks on
    /// and the caller treats the absence of a path as a non-fatal
    /// condition.
    pub fn recalculate_path(&mut self, grid: &Grid, goal: Position)
        requires
            old(self).wf(),
        ensures
            final(self).id == old(self).id,
            final(self).x == old(self).x,
            final(self).y == old(self).y,
            final(self).speed == old(self).speed,
            final(self).health == old(self).health,
            final(self).max_health == old(self).max_health,
            final(self).slow_duration == old(self).slow_duration,
            final(self).slow_multiplier == old(self).slow_multiplier,
            reachable(*grid, grid_cell_of(*old(self)), goal) ==> {
                &&& final(self).current_waypoint == 0
                &&& exists|full: Seq<Position>|
                    #[trigger] path_ok(*grid, grid_cell_of(*old(self)), goal, full) && no_shorter(
                        *grid,
                        grid_cell_of(*old(self)),
                        goal,
                        full.len() - 1,
                    ) && final(self).path@ == waypoints_of(full)
            },
            !reachable(*grid, grid_cell_of(*old(self)), goal) ==> {
                final(self).path@ == old(self).path@ && final(self).current_waypoint == old(
                    self,
                ).current_waypoint
            },
            final(self).wf(),
    {
        let cp = Position::from_world(self.x, self.y);
        proof {
            assert(cp == grid_cell_of(*self));
        }
        match find_waypoints(grid, cp, goal) {
            Some(new_path) => {
                self.path = new_path;
                self.current_waypoint = 0;
            },
            None => {},
        }
    }
}

} // verus!
