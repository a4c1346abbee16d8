//! Projectiles: homing shots with a bounded lifetime. Each projectile
//! chases its target enemy's last known position, snapping onto the aim
//! point when a step would overshoot it.

use vstd::prelude::*;
use crate::geometry::{dist_sq, dist_sq_world, move_toward, move_toward_x, move_toward_y,
    pos_in_cell_range, sqrt_floor};
use crate::tower::{TowerType, spec_damage, spec_projectile_speed};

verus! {

/// Maximal projectile lifetime, in milliseconds.
pub const PROJECTILE_LIFETIME_MS: u32 = 5000;

/// Squared distance under which a projectile is removed as arrived.
pub const PROJECTILE_REMOVE_SQ: u128 = 25_000_000;

/// Squared distance under which a removed projectile counts as a hit.
pub const PROJECTILE_HIT_SQ: u128 = 100_000_000;

/// A projectile in flight. `target_id` is a weak reference: the enemy
/// may vanish at any time, after which the projectile keeps flying
/// toward the last known aim point.
#[derive(Debug, Clone, Copy)]
pub struct Projectile {
    pub id: u64,
    pub tower_type: TowerType,
    pub x: i64,
    pub y: i64,
    pub target_id: u64,
    pub target_x: i64,
    pub target_y: i64,
    pub damage: u32,
    pub speed: u32,
    pub lifetime: u32,
}

/// Lifetime remaining after `delta` milliseconds, never below zero.
pub open spec fn lifetime_after(p: Projectile, delta: u32) -> int {
    if delta >= p.lifetime {
        0
    } else {
        p.lifetime - delta
    }
}

/// The aim point for this tick: the target enemy's current position
/// when it still exists, else the last known point.
pub open spec fn aim_point(p: Projectile, aim: Option<(i64, i64)>) -> (int, int) {
    match aim {
        Some(a) => (a.0 as int, a.1 as int),
        None => (p.target_x as int, p.target_y as int),
    }
}

/// Distance flown in one tick.
pub open spec fn flight_step(p: Projectile, delta: u32) -> int {
    p.speed * delta / 1000
}

/// The projectile after one tick: lifetime decays, the aim point is
/// re-synced, and unless the projectile is within the arrival threshold
/// or expired it advances toward the aim point without overshooting.
pub open spec fn proj_stepped(p: Projectile, delta: u32, aim: Option<(i64, i64)>) -> Projectile {
    let lt = lifetime_after(p, delta) as u32;
    let (tx, ty) = aim_point(p, aim);
    let d2 = dist_sq(p.x as int, p.y as int, tx, ty);
    if d2 < PROJECTILE_REMOVE_SQ || lt == 0 {
        Projectile { lifetime: lt, target_x: tx as i64, target_y: ty as i64, ..p }
    } else {
        let step = flight_step(p, delta);
        Projectile {
            lifetime: lt,
            target_x: tx as i64,
            target_y: ty as i64,
            x: move_toward_x(p.x as int, p.y as int, tx, ty, step) as i64,
            y: move_toward_y(p.x as int, p.y as int, tx, ty, step) as i64,
            ..p
        }
    }
}

/// Whether the projectile remains in flight after the tick: it does
/// unless it arrived (within threshold), expired, or its step reached
/// the aim point.
pub open spec fn proj_in_flight(p: Projectile, delta: u32, aim: Option<(i64, i64)>) -> bool {
    let lt = lifetime_after(p, delta);
    let (tx, ty) = aim_point(p, aim);
    let d2 = dist_sq(p.x as int, p.y as int, tx, ty);
    if d2 < PROJECTILE_REMOVE_SQ || lt == 0 {
        false
    } else {
        flight_step(p, delta) < sqrt_floor(d2)
    }
}

impl Projectile {
    /// Coordinates stay in the cell-addressable world range.
    pub open spec fn wf(self) -> bool {
        &&& pos_in_cell_range(self.x as int)
        &&& pos_in_cell_range(self.y as int)
        &&& pos_in_cell_range(self.target_x as int)
        &&& pos_in_cell_range(self.target_y as int)
    }

    /// A fresh projectile of the firing tower's kind, aimed at the
    /// target enemy's position; damage and speed follow the kind.
    pub fn new(
        id: u64,
        tower_type: TowerType,
        start_x: i64,
        start_y: i64,
        target_id: u64,
        target_x: i64,
        target_y: i64,
    ) -> (p: Projectile)
        requires
            pos_in_cell_range(start_x as int),
            pos_in_cell_range(start_y as int),
            pos_in_cell_range(target_x as int),
            pos_in_cell_range(target_y as int),
        ensures
            p == (Projectile {
                id,
                tower_type,
                x: start_x,
                y: start_y,
                target_id,
                target_x,
                target_y,
                damage: spec_damage(tower_type) as u32,
                speed: spec_projectile_speed(tower_type) as u32,
                lifetime: PROJECTILE_LIFETIME_MS,
            }),
            p.wf(),
    {
        Projectile {
            id,
            tower_type,
            x: start_x,
            y: start_y,
            target_id,
            target_x,
            target_y,
            damage: tower_type.damage(),
            speed: tower_type.projectile_speed(),
            lifetime: PROJECTILE_LIFETIME_MS,
        }
    }

    /// One tick of flight. The result is true while the projectile
    /// remains in flight; false means it should be removed this tick,
    /// whether by arrival, by reaching the aim point, or by expiry.
    pub fn update(&mut self, delta: u32, enemy_pos: Option<(i64, i64)>) -> (in_flight: bool)
        requires
            old(self).wf(),
            enemy_pos matches Some(a) ==> pos_in_cell_range(a.0 as int) && pos_in_cell_range(
                a.1 as int,
            ),
        ensures
            *final(self) == proj_stepped(*old(self), delta, enemy_pos),
            in_flight == proj_in_flight(*old(self), delta, enemy_pos),
            final(self).wf(),
    {
        if delta >= self.lifetime {
            self.lifetime = 0;
        } else {
            self.lifetime = self.lifetime - delta;
        }
        if let Some(a) = enemy_pos {
            self.target_x = a.0;
            self.target_y = a.1;
        }
        let d2 = dist_sq_world(self.x, self.y, self.target_x, self.target_y);
        if d2 < 25_000_000 || self.lifetime == 0 {
            return false;
        }
        proof {
            assert(self.speed as int * (delta as int) <= 18_446_744_065_119_617_025int)
                by (nonlinear_arith)
                requires
                    0 <= self.speed <= 4_294_967_295,
                    0 <= delta <= 4_294_967_295,
            ;
        }
        let step: u64 = self.speed as u64 * delta as u64 / 1000;
        let r = move_toward(self.x, self.y, self.target_x, self.target_y, step);
        let arrived = r.0 == self.target_x && r.1 == self.target_y;
        proof {
            crate::geometry::lemma_sqrt_floor_bounds(d2 as int);
            if flight_step(*old(self), delta) >= sqrt_floor(d2 as int) {
                assert(arrived);
            } else {
                if arrived {
                    lemma_strict_move_misses(
                        self.x as int,
                        self.y as int,
                        self.target_x as int,
                        self.target_y as int,
                        step as int,
                    );
                }
            }
        }
        self.x = r.0;
        self.y = r.1;
        !arrived
    }

    /// Whether the projectile is close enough to its aim point for a
    /// removal this tick to resolve as a hit.
    pub fn has_hit(&self) -> (r: bool)
        requires
            self.wf(),
        ensures
            r == (dist_sq(self.x as int, self.y as int, self.target_x as int, self.target_y as int)
                < PROJECTILE_HIT_SQ),
    {
        let d2 = dist_sq_world(self.x, self.y, self.target_x, self.target_y);
        d2 < 100_000_000
    }
}

/// A step strictly shorter than the distance to the target cannot land
/// exactly on the target: at least one axis still differs afterwards.
proof fn lemma_strict_move_misses(x: int, y: int, tx: int, ty: int, step: int)
    requires
        0 <= step,
        step < sqrt_floor(dist_sq(x, y, tx, ty)),
    ensures
        move_toward_x(x, y, tx, ty, step) != tx || move_toward_y(x, y, tx, ty, step) != ty,
{
    let d2 = dist_sq(x, y, tx, ty);
    let dist = sqrt_floor(d2);
    crate::geometry::lemma_sqrt_floor_bounds(d2);
    if x == tx && y == ty {
        assert(d2 == 0);
        assert(sqrt_floor(0) == 0);
        assert(false);
    }
    if x != tx {
        let a = if tx >= x {
            tx - x
        } else {
            x - tx
        };
        assert(a * step < dist * a && 0 < dist) by (nonlinear_arith)
            requires
                a >= 1,
                0 <= step,
                step < dist,
        ;
        assert(a * step / dist < a) by {
            vstd::arithmetic::div_mod::lemma_multiply_divide_lt(a * step, dist, a);
        }
        assert(a * step / dist >= 0) by {
            assert(a * step >= 0) by (nonlinear_arith)
                requires
                    a >= 0,
                    step >= 0,
            ;
            vstd::arithmetic::div_mod::lemma_div_pos_is_pos(a * step, dist);
        }
    } else {
        let a = if ty >= y {
            ty - y
        } else {
            y - ty
        };
        assert(a * step < dist * a && 0 < dist) by (nonlinear_arith)
            requires
                a >= 1,
                0 <= step,
                step < dist,
        ;
        assert(a * step / dist < a) by {
            vstd::arithmetic::div_mod::lemma_multiply_divide_lt(a * step, dist, a);
        }
        assert(a * step / dist >= 0) by {
            assert(a * step >= 0) by (nonlinear_arith)
                requires
                    a >= 0,
                    step >= 0,
            ;
            vstd::arithmetic::div_mod::lemma_div_pos_is_pos(a * step, dist);
        }
    }
}

} // verus!
