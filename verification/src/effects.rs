//! Transient visual effects: muzzle flashes and expanding explosion
//! rings. Purely cosmetic; the simulation owns them only long enough to
//! decay their lifetimes.

use vstd::prelude::*;
use crate::tower::TowerType;

verus! {

/// Lifetime of a muzzle flash, in milliseconds.
pub const FLASH_LIFETIME_MS: u32 = 100;

/// Lifetime of an explosion ring, in milliseconds.
pub const EXPLOSION_LIFETIME_MS: u32 = 300;

/// A short flash at a tower's muzzle when it fires. The kind of the
/// firing tower determines the flash color in the presentation.
#[derive(Debug, Clone, Copy)]
pub struct MuzzleFlash {
    pub x: i64,
    pub y: i64,
    pub tower_type: TowerType,
    pub lifetime: u32,
    pub max_lifetime: u32,
}

impl MuzzleFlash {
    /// Lifetimes stay within the initial maximum, which is positive.
    pub open spec fn wf(self) -> bool {
        0 < self.max_lifetime <= 1_000_000 && self.lifetime <= self.max_lifetime
    }

    pub fn new(x: i64, y: i64, tower_type: TowerType) -> (f: MuzzleFlash)
        ensures
            f == (MuzzleFlash {
                x,
                y,
                tower_type,
                lifetime: FLASH_LIFETIME_MS,
                max_lifetime: FLASH_LIFETIME_MS,
            }),
            f.wf(),
    {
        MuzzleFlash {
            x,
            y,
            tower_type,
            lifetime: FLASH_LIFETIME_MS,
            max_lifetime: FLASH_LIFETIME_MS,
        }
    }

    /// One tick of decay; the result says whether the flash is still
    /// visible.
    pub fn update(&mut self, delta: u32) -> (alive: bool)
        requires
            old(self).wf(),
        ensures
            final(self).lifetime == if delta >= old(self).lifetime {
                0
            } else {
                (old(self).lifetime - delta) as u32
            },
            final(self).x == old(self).x,
            final(self).y == old(self).y,
            final(self).tower_type == old(self).tower_type,
            final(self).max_lifetime == old(self).max_lifetime,
            alive == (final(self).lifetime > 0),
            final(self).wf(),
    {
        if delta >= self.lifetime {
            self.lifetime = 0;
        } else {
            self.lifetime = self.lifetime - delta;
        }
        self.lifetime > 0
    }

    /// Opacity of the flash in thousandths: the fraction of its
    /// lifetime that remains.
    pub fn alpha(&self) -> (a: u32)
        requires
            self.wf(),
        ensures
            a == self.lifetime * 1000 / (self.max_lifetime as int),
            a <= 1000,
    {
        proof {
            assert(self.lifetime * 1000 / (self.max_lifetime as int) <= 1000) by (nonlinear_arith)
                requires
                    0 < self.max_lifetime,
                    self.lifetime <= self.max_lifetime,
            ;
        }
        self.lifetime * 1000 / self.max_lifetime
    }
}

/// An expanding ring anchored at a splash impact point; its radius
/// grows linearly from zero to `max_radius` over its lifetime.
#[derive(Debug, Clone, Copy)]
pub struct ExplosionEffect {
    pub x: i64,
    pub y: i64,
    pub radius: u64,
    pub max_radius: u64,
    pub lifetime: u32,
    pub max_lifetime: u32,
}

impl ExplosionEffect {
    pub open spec fn wf(self) -> bool {
        &&& 0 < self.max_lifetime <= 1_000_000
        &&& self.lifetime <= self.max_lifetime
        &&& self.max_radius <= 1_000_000_000_000
        &&& self.radius <= self.max_radius
    }

    /// A fresh ring of the given final radius, in thousandths of a
    /// cell, at world point `(x, y)`.
    pub fn new(x: i64, y: i64, radius: u64) -> (e: ExplosionEffect)
        requires
            radius <= 25_000_000,
        ensures
            e == (ExplosionEffect {
                x,
                y,
                radius: 0,
                max_radius: (radius * 40) as u64,
                lifetime: EXPLOSION_LIFETIME_MS,
                max_lifetime: EXPLOSION_LIFETIME_MS,
            }),
            e.wf(),
    {
        ExplosionEffect {
            x,
            y,
            radius: 0,
            max_radius: radius * 40,
            lifetime: EXPLOSION_LIFETIME_MS,
            max_lifetime: EXPLOSION_LIFETIME_MS,
        }
    }

    /// One tick of decay: the lifetime shrinks and the ring's radius is
    /// the elapsed fraction of the maximal radius. The result says
    /// whether the ring is still visible.
    pub fn update(&mut self, delta: u32) -> (alive: bool)
        requires
            old(self).wf(),
        ensures
            final(self).lifetime == if delta >= old(self).lifetime {
                0
            } else {
                (old(self).lifetime - delta) as u32
            },
            final(self).radius == old(self).max_radius * (
                (old(self).max_lifetime - final(self).lifetime) as u64
            ) / (old(self).max_lifetime as int),
            final(self).x == old(self).x,
            final(self).y == old(self).y,
            final(self).max_radius == old(self).max_radius,
            final(self).max_lifetime == old(self).max_lifetime,
            alive == (final(self).lifetime > 0),
            final(self).wf(),
    {
        if delta >= self.lifetime {
            self.lifetime = 0;
        } else {
            self.lifetime = self.lifetime - delta;
        }
        let elapsed = (self.max_lifetime - self.lifetime) as u64;
        proof {
            assert(self.max_radius * elapsed <= 1_000_000_000_000 * 4_294_967_295int
                && self.max_radius * elapsed / (self.max_lifetime as int) <= self.max_radius)
                by (nonlinear_arith)
                requires
                    0 <= self.max_radius <= 1_000_000_000_000,
                    0 <= elapsed <= self.max_lifetime,
                    0 < self.max_lifetime <= 4_294_967_295,
            ;
        }
        self.radius = ((self.max_radius as u128 * elapsed as u128) / (self.max_lifetime as u128))
            as u64;
        self.lifetime > 0
    }

    /// Opacity of the ring in thousandths: the fraction of its lifetime
    /// that remains.
    pub fn alpha(&self) -> (a: u32)
        requires
            self.wf(),
        ensures
            a == self.lifetime * 1000 / (self.max_lifetime as int),
            a <= 1000,
    {
        proof {
            assert(self.lifetime * 1000 / (self.max_lifetime as int) <= 1000) by (nonlinear_arith)
                requires
                    0 < self.max_lifetime,
                    self.lifetime <= self.max_lifetime,
            ;
        }
        self.lifetime * 1000 / self.max_lifetime
    }
}

} // verus!
