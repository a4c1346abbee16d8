//! Tower kinds, their fixed stat tables, and per-tower runtime state.
//!
//! Rates and ranges are scaled integers: ranges and the splash radius
//! are in thousandths of a cell, fire rates in shots per thousand
//! seconds, projectile speeds in world units per second, and cooldowns
//! in milliseconds.

use vstd::prelude::*;
use crate::position::{Position, cell_center};

verus! {

/// The four tower kinds, each with a fixed cost, range, damage,
/// fire rate, projectile speed and (for `Splash`) splash radius.
#[derive(Debug, Clone, Copy, PartialEq, Eq, Structural)]
pub enum TowerType {
    Basic,
    Sniper,
    Splash,
    Slow,
}

/// Gold cost of placing a tower of kind `t`.
pub open spec fn spec_cost(t: TowerType) -> int {
    match t {
        TowerType::Basic => 50,
        TowerType::Sniper => 100,
        TowerType::Splash => 75,
        TowerType::Slow => 60,
    }
}

/// Targeting range of `t`, in thousandths of a cell.
pub open spec fn spec_range(t: TowerType) -> int {
    match t {
        TowerType::Basic => 3000,
        TowerType::Sniper => 6000,
        TowerType::Splash => 2500,
        TowerType::Slow => 3500,
    }
}

/// Damage dealt by one projectile of `t`.
pub open spec fn spec_damage(t: TowerType) -> int {
    match t {
        TowerType::Basic => 10,
        TowerType::Sniper => 50,
        TowerType::Splash => 15,
        TowerType::Slow => 5,
    }
}

/// Fire rate of `t`, in shots per thousand seconds.
pub open spec fn spec_fire_rate(t: TowerType) -> int {
    match t {
        TowerType::Basic => 1000,
        TowerType::Sniper => 300,
        TowerType::Splash => 800,
        TowerType::Slow => 2000,
    }
}

/// Cooldown between shots of `t`, in milliseconds: the reciprocal of
/// the fire rate.
pub open spec fn spec_fire_period(t: TowerType) -> int {
    match t {
        TowerType::Basic => 1000,
        TowerType::Sniper => 3333,
        TowerType::Splash => 1250,
        TowerType::Slow => 500,
    }
}

/// Projectile speed of `t`, in world units per second.
pub open spec fn spec_projectile_speed(t: TowerType) -> int {
    match t {
        TowerType::Basic => 300000,
        TowerType::Sniper => 600000,
        TowerType::Splash => 200000,
        TowerType::Slow => 250000,
    }
}

/// Splash radius of `t`, in thousandths of a cell; zero for kinds
/// without area damage.
pub open spec fn spec_splash_radius(t: TowerType) -> int {
    match t {
        TowerType::Splash => 1500,
        _ => 0,
    }
}

impl TowerType {
    pub fn cost(&self) -> (c: u64)
        ensures
            c == spec_cost(*self),
    {
        match self {
            TowerType::Basic => 50,
            TowerType::Sniper => 100,
            TowerType::Splash => 75,
            TowerType::Slow => 60,
        }
    }

    pub fn range(&self) -> (r: u64)
        ensures
            r == spec_range(*self),
    {
        match self {
            TowerType::Basic => 3000,
            TowerType::Sniper => 6000,
            TowerType::Splash => 2500,
            TowerType::Slow => 3500,
        }
    }

    pub fn damage(&self) -> (d: u32)
        ensures
            d == spec_damage(*self),
    {
        match self {
            TowerType::Basic => 10,
            TowerType::Sniper => 50,
            TowerType::Splash => 15,
            TowerType::Slow => 5,
        }
    }

    pub fn fire_rate(&self) -> (r: u32)
        ensures
            r == spec_fire_rate(*self),
    {
        match self {
            TowerType::Basic => 1000,
            TowerType::Sniper => 300,
            TowerType::Splash => 800,
            TowerType::Slow => 2000,
        }
    }

    /// Milliseconds between shots: one thousand seconds divided by the
    /// fire rate.
    pub fn fire_period(&self) -> (p: u32)
        ensures
            p == spec_fire_period(*self),
            p > 0,
    {
        1_000_000 / self.fire_rate()
    }

    pub fn projectile_speed(&self) -> (s: u32)
        ensures
            s == spec_projectile_speed(*self),
    {
        match self {
            TowerType::Basic => 300000,
            TowerType::Sniper => 600000,
            TowerType::Splash => 200000,
            TowerType::Slow => 250000,
        }
    }

    pub fn splash_radius(&self) -> (r: u64)
        ensures
            r == spec_splash_radius(*self),
    {
        match self {
            TowerType::Splash => 1500,
            _ => 0,
        }
    }
}

/// A placed tower: identity, kind and cell are fixed at creation; the
/// cooldown, the recorded target and the aim vector are runtime state.
/// The aim vector points from the tower's center toward its last
/// target; the presentation derives the barrel angle from it.
#[derive(Debug, Clone, Copy)]
pub struct Tower {
    pub id: u64,
    pub tower_type: TowerType,
    pub position: Position,
    pub cooldown_remaining: u32,
    pub target_id: Option<u64>,
    pub aim_dx: i64,
    pub aim_dy: i64,
}

impl Tower {
    pub fn new(id: u64, tower_type: TowerType, position: Position) -> (t: Tower)
        ensures
            t.id == id,
            t.tower_type == tower_type,
            t.position == position,
            t.cooldown_remaining == 0,
            t.target_id.is_none(),
            t.aim_dx == 1,
            t.aim_dy == 0,
    {
        Tower {
            id,
            tower_type,
            position,
            cooldown_remaining: 0,
            target_id: None,
            aim_dx: 1,
            aim_dy: 0,
        }
    }

    /// A tower may fire exactly when its cooldown has run out.
    pub fn can_shoot(&self) -> (r: bool)
        ensures
            r == (self.cooldown_remaining == 0),
    {
        self.cooldown_remaining == 0
    }

    /// Cooldown decay for one tick: `delta` milliseconds elapse, and the
    /// remaining cooldown never drops below zero.
    pub fn update(&mut self, delta: u32)
        ensures
            final(self).cooldown_remaining == if delta >= old(self).cooldown_remaining {
                0
            } else {
                (old(self).cooldown_remaining - delta) as u32
            },
            final(self).id == old(self).id,
            final(self).tower_type == old(self).tower_type,
            final(self).position == old(self).position,
            final(self).target_id == old(self).target_id,
            final(self).aim_dx == old(self).aim_dx,
            final(self).aim_dy == old(self).aim_dy,
    {
        if delta >= self.cooldown_remaining {
            self.cooldown_remaining = 0;
        } else {
            self.cooldown_remaining = self.cooldown_remaining - delta;
        }
    }

    /// Firing resets the cooldown to the kind's full period.
    pub fn shoot(&mut self)
        ensures
            final(self).cooldown_remaining == spec_fire_period(old(self).tower_type),
            final(self).id == old(self).id,
            final(self).tower_type == old(self).tower_type,
            final(self).position == old(self).position,
            final(self).target_id == old(self).target_id,
            final(self).aim_dx == old(self).aim_dx,
            final(self).aim_dy == old(self).aim_dy,
    {
        self.cooldown_remaining = self.tower_type.fire_period();
    }

    /// World coordinates of the tower's center.
    pub fn world_position(&self) -> (w: (i64, i64))
        ensures
            w.0 == cell_center(self.position.x as int),
            w.1 == cell_center(self.position.y as int),
            crate::geometry::in_world(w.0 as int),
            crate::geometry::in_world(w.1 as int),
    {
        self.position.world_center()
    }
}

} // verus!
