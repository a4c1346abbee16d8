//! The per-tick combat simulation on top of `GameState`: tower
//! targeting and firing, projectile flight and hit resolution, damage
//! application with splash and slow effects, the death sweep and
//! rewards, enemy movement and leak detection, and effect decay.
//!
//! Every phase follows the collect-then-mutate discipline: it reads a
//! consistent snapshot of the state, computes its effects, and only
//! then applies them, so no collection is mutated while it is being
//! scanned.

use vstd::prelude::*;
use crate::geometry::{dist_sq, dist_sq_world, pos_in_cell_range};
use crate::position::cell_center;
use crate::tower::{Tower, TowerType, spec_range};
use crate::enemy::Enemy;
use crate::projectile::Projectile;
use crate::effects::{MuzzleFlash, ExplosionEffect};
use crate::game::GameState;

verus! {

/// The full game: authoritative state plus projectiles and transient
/// effects.
pub struct Game {
    pub state: GameState,
    pub projectiles: Vec<Projectile>,
    pub next_projectile_id: u64,
    pub muzzle_flashes: Vec<MuzzleFlash>,
    pub explosions: Vec<ExplosionEffect>,
}

/// Squared world-space targeting range of a tower kind.
pub open spec fn range_world_sq(t: TowerType) -> int {
    (spec_range(t) * 40) * (spec_range(t) * 40)
}

/// Whether enemy `e` is within targeting range of a tower of kind `t`
/// centered at `(tcx, tcy)`.
pub open spec fn enemy_in_range(t: TowerType, tcx: int, tcy: int, e: Enemy) -> bool {
    dist_sq(tcx, tcy, e.x as int, e.y as int) <= range_world_sq(t)
}

/// Target choice among the first `i` enemies: the alive, in-range
/// enemy furthest along its path, later entries winning ties — the
/// deterministic analogue of scanning the roster in order.
pub open spec fn target_scan(es: Seq<Enemy>, t: TowerType, tcx: int, tcy: int, i: int) -> Option<
    int,
>
    decreases i,
{
    if i <= 0 {
        None
    } else {
        let prev = target_scan(es, t, tcx, tcy, i - 1);
        let e = es[i - 1];
        if e.health > 0 && enemy_in_range(t, tcx, tcy, e) && (match prev {
            None => true,
            Some(j) => es[j].current_waypoint <= e.current_waypoint,
        }) {
            Some(i - 1)
        } else {
            prev
        }
    }
}

/// The tower's chosen target over the whole enemy roster.
pub open spec fn chosen_target(es: Seq<Enemy>, t: TowerType, tcx: int, tcy: int) -> Option<int> {
    target_scan(es, t, tcx, tcy, es.len() as int)
}

/// First index holding an enemy with the given id, if any.
pub open spec fn enemy_index_upto(es: Seq<Enemy>, id: u64, i: int) -> Option<int>
    decreases i,
{
    if i <= 0 {
        None
    } else {
        match enemy_index_upto(es, id, i - 1) {
            Some(j) => Some(j),
            None => if es[i - 1].id == id {
                Some(i - 1)
            } else {
                None
            },
        }
    }
}

/// Index of the enemy with the given id, if it still exists.
pub open spec fn enemy_index(es: Seq<Enemy>, id: u64) -> Option<int> {
    enemy_index_upto(es, id, es.len() as int)
}

impl Game {
    /// Structural soundness: a sound `GameState`, strictly increasing
    /// projectile ids below the allocator, and well-formed projectiles
    /// and effects.
    pub open spec fn wf(self) -> bool {
        &&& self.state.wf()
        &&& forall|i: int|
            0 <= i < self.projectiles@.len() ==> (#[trigger] self.projectiles@[i]).id
                < self.next_projectile_id
        &&& forall|i: int, j: int|
            0 <= i < j < self.projectiles@.len() ==> self.projectiles@[i].id
                < self.projectiles@[j].id
        &&& forall|i: int|
            0 <= i < self.projectiles@.len() ==> (#[trigger] self.projectiles@[i]).wf()
        &&& forall|i: int|
            0 <= i < self.muzzle_flashes@.len() ==> (#[trigger] self.muzzle_flashes@[i]).wf()
        &&& forall|i: int|
            0 <= i < self.explosions@.len() ==> (#[trigger] self.explosions@[i]).wf()
    }

    /// A fresh game with no projectiles or effects.
    pub fn new() -> (g: Game)
        ensures
            g.state.grid.width == crate::game::GRID_WIDTH,
            g.state.grid.height == crate::game::GRID_HEIGHT,
            g.state.towers@.len() == 0,
            g.state.enemies@.len() == 0,
            g.state.gold == crate::game::STARTING_GOLD,
            g.state.health == crate::game::STARTING_HEALTH,
            !g.state.paused,
            g.projectiles@.len() == 0,
            g.next_projectile_id == 0,
            g.muzzle_flashes@.len() == 0,
            g.explosions@.len() == 0,
            g.wf(),
    {
        Game {
            state: GameState::new(),
            projectiles: Vec::new(),
            next_projectile_id: 0,
            muzzle_flashes: Vec::new(),
            explosions: Vec::new(),
        }
    }

    /// Scans the enemy roster for the tower's target: among the alive
    /// enemies within range of `(tower_x, tower_y)`, the one furthest
    /// along its path, later roster entries winning ties.
    pub fn find_target_for_tower_at(
        &self,
        tower_x: i64,
        tower_y: i64,
        tower_type: TowerType,
    ) -> (r: Option<usize>)
        requires
            self.state.wf(),
            pos_in_cell_range(tower_x as int),
            pos_in_cell_range(tower_y as int),
        ensures
            match r {
                Some(u) => u < self.state.enemies@.len() && chosen_target(
                    self.state.enemies@,
                    tower_type,
                    tower_x as int,
                    tower_y as int,
                ) == Some(u as int),
                None => chosen_target(
                    self.state.enemies@,
                    tower_type,
                    tower_x as int,
                    tower_y as int,
                ).is_none(),
            },
    {
        let range = tower_type.range();
        let range_world = range * 40;
        proof {
            assert(range <= 6000);
            assert((range_world as u128) * (range_world as u128) <= 57_600_000_000int)
                by (nonlinear_arith)
                requires
                    0 <= range_world as u128 <= 240_000,
            ;
        }
        let rsq: u128 = (range_world as u128) * (range_world as u128);
        let mut best: Option<usize> = None;
        let mut i: usize = 0;
        while i < self.state.enemies.len()
            invariant
                self.state.wf(),
                pos_in_cell_range(tower_x as int),
                pos_in_cell_range(tower_y as int),
                0 <= i <= self.state.enemies@.len(),
                rsq == range_world_sq(tower_type),
                match best {
                    Some(u) => u < i && target_scan(
                        self.state.enemies@,
                        tower_type,
                        tower_x as int,
                        tower_y as int,
                        i as int,
                    ) == Some(u as int),
                    None => target_scan(
                        self.state.enemies@,
                        tower_type,
                        tower_x as int,
                        tower_y as int,
                        i as int,
                    ).is_none(),
                },
            decreases self.state.enemies@.len() - i,
    {
            let e = &self.state.enemies[i];
            let alive = e.health > 0;
            let d2 = dist_sq_world(tower_x, tower_y, e.x, e.y);
            if alive && d2 <= rsq {
                match best {
                    None => {
                        best = Some(i);
                    },
                    Some(b) => {
                        if self.state.enemies[b].current_waypoint <= e.current_waypoint {
                            best = Some(i);
                        }
                    },
                }
            }
            i = i + 1;
        }
        best
    }

    /// Tower phase of one tick: cooldowns decay; each tower that was
    /// ready at the start of the tick fires at its chosen target —
    /// resetting its cooldown, recording target and aim, and spawning a
    /// projectile and a muzzle flash — or clears its target record when
    /// none is in range. The enemy roster is only read, never changed.
    pub fn update_towers(&mut self, delta: u32)
        requires
            old(self).wf(),
        ensures
            ({
                let r = towers_phase(
                    old(self).state.towers@,
                    old(self).state.enemies@,
                    old(self).next_projectile_id,
                    delta,
                    old(self).state.towers@.len() as int,
                );
                &&& final(self).state.towers@ == r.0
                &&& final(self).projectiles@ == old(self).projectiles@ + r.1
                &&& final(self).muzzle_flashes@ == old(self).muzzle_flashes@ + r.2
                &&& final(self).next_projectile_id == r.3
            }),
            final(self).state.enemies@ == old(self).state.enemies@,
            final(self).state.grid == old(self).state.grid,
            final(self).state.spawn_point == old(self).state.spawn_point,
            final(self).state.goal_point == old(self).state.goal_point,
            final(self).state.next_tower_id == old(self).state.next_tower_id,
            final(self).state.next_enemy_id == old(self).state.next_enemy_id,
            final(self).state.gold == old(self).state.gold,
            final(self).state.health == old(self).state.health,
            final(self).state.paused == old(self).state.paused,
            final(self).explosions@ == old(self).explosions@,
            final(self).wf(),
    {
        let ghost ts0 = self.state.towers@;
        let ghost es0 = self.state.enemies@;
        let ghost nid0 = self.next_projectile_id;
        let n = self.state.towers.len();
        let mut new_towers: Vec<Tower> = Vec::new();
        let mut i: usize = 0;
        while i < n
            invariant
                old(self).wf(),
                self.state == old(self).state,
                self.explosions@ == old(self).explosions@,
                ts0 == self.state.towers@,
                es0 == self.state.enemies@,
                nid0 == old(self).next_projectile_id,
                n == ts0.len(),
                0 <= i <= n,
                ({
                    let r = towers_phase(ts0, es0, nid0, delta, i as int);
                    &&& new_towers@ == r.0
                    &&& self.projectiles@ == old(self).projectiles@ + r.1
                    &&& self.muzzle_flashes@ == old(self).muzzle_flashes@ + r.2
                    &&& self.next_projectile_id == r.3
                }),
            decreases n - i,
        {
            let t = self.state.towers[i];
            let w = t.world_position();
            let cx = w.0;
            let cy = w.1;
            if t.cooldown_remaining == 0 {
                match self.find_target_for_tower_at(cx, cy, t.tower_type) {
                    Some(j) => {
                        if self.next_projectile_id < 18_446_744_073_709_551_615u64 {
                            let ex = self.state.enemies[j].x;
                            let ey = self.state.enemies[j].y;
                            let eid = self.state.enemies[j].id;
                            proof {
                                assert(self.state.enemies@[j as int].wf());
                            }
                            let mut ft = t;
                            ft.target_id = Some(eid);
                            ft.aim_dx = ex - cx;
                            ft.aim_dy = ey - cy;
                            ft.shoot();
                            new_towers.push(ft);
                            let pr = Projectile::new(
                                self.next_projectile_id,
                                t.tower_type,
                                cx,
                                cy,
                                eid,
                                ex,
                                ey,
                            );
                            self.projectiles.push(pr);
                            self.next_projectile_id = self.next_projectile_id + 1;
                            self.muzzle_flashes.push(MuzzleFlash::new(cx, cy, t.tower_type));
                        } else {
                            let mut ft = t;
                            ft.cooldown_remaining = 0;
                            ft.target_id = None;
                            new_towers.push(ft);
                        }
                    },
                    None => {
                        let mut ft = t;
                        ft.cooldown_remaining = 0;
                        ft.target_id = None;
                        new_towers.push(ft);
                    },
                }
            } else {
                let mut ft = t;
                ft.update(delta);
                new_towers.push(ft);
            }
            i = i + 1;
        }
        self.state.towers = new_towers;
        proof {
            lemma_towers_phase_props(ts0, es0, nid0, delta, n as int);
            let r = towers_phase(ts0, es0, nid0, delta, n as int);
            let s = *self;
            let o = *old(self);
            assert forall|a: int, b: int| 0 <= a < b < s.state.towers@.len() implies s.state.towers@[
                a
            ].id < s.state.towers@[b].id by {
                assert(s.state.towers@[a].id == ts0[a].id && s.state.towers@[b].id == ts0[b].id);
            }
            assert forall|p: crate::position::Position|
                s.state.grid.in_bounds(p) && !(#[trigger] s.state.grid.walkable(p)) implies (
            exists|k: int|
                0 <= k < s.state.towers@.len() && (#[trigger] s.state.towers@[k]).position == p) by {
                let k = choose|k: int|
                    0 <= k < o.state.towers@.len() && (#[trigger] o.state.towers@[k]).position
                        == p;
                assert(s.state.towers@[k].position == p);
            }
            assert forall|a: int, b: int| 0 <= a < b < s.projectiles@.len() implies s.projectiles@[
                a
            ].id < s.projectiles@[b].id by {
                if b < o.projectiles@.len() {
                } else if a < o.projectiles@.len() {
                    assert(s.projectiles@[a].id < nid0);
                    assert(s.projectiles@[b] == r.1[b - o.projectiles@.len()]);
                } else {
                    assert(s.projectiles@[a] == r.1[a - o.projectiles@.len()]);
                    assert(s.projectiles@[b] == r.1[b - o.projectiles@.len()]);
                }
            }
        }
    }
}

/// World-space center of a tower's cell, x axis.
pub open spec fn tower_center_x(t: Tower) -> int {
    cell_center(t.position.x as int)
}

/// World-space center of a tower's cell, y axis.
pub open spec fn tower_center_y(t: Tower) -> int {
    cell_center(t.position.y as int)
}

/// A tower after plain cooldown decay.
pub open spec fn cooled(t: Tower, delta: u32) -> Tower {
    Tower {
        cooldown_remaining: (if delta >= t.cooldown_remaining {
            0
        } else {
            t.cooldown_remaining - delta
        }) as u32,
        ..t
    }
}

/// The firing phase applied to the first `i` towers: the towers' new
/// states in order, the projectiles and muzzle flashes spawned, and the
/// projectile id allocator afterwards. A ready tower with a target
/// fires: cooldown reset to the full period, target and aim recorded, a
/// projectile and a flash spawned. A ready tower without a target
/// clears its target record. Others merely cool down.
pub open spec fn towers_phase(
    ts: Seq<Tower>,
    es: Seq<Enemy>,
    next_id: u64,
    delta: u32,
    i: int,
) -> (Seq<Tower>, Seq<Projectile>, Seq<MuzzleFlash>, u64)
    decreases i,
{
    if i <= 0 {
        (Seq::<Tower>::empty(), Seq::<Projectile>::empty(), Seq::<MuzzleFlash>::empty(), next_id)
    } else {
        let r = towers_phase(ts, es, next_id, delta, i - 1);
        let t = ts[i - 1];
        let cx = tower_center_x(t);
        let cy = tower_center_y(t);
        if t.cooldown_remaining == 0 {
            match chosen_target(es, t.tower_type, cx, cy) {
                Some(j) => if r.3 < 0xffff_ffff_ffff_ffffu64 {
                    let e = es[j];
                    let ft = Tower {
                        cooldown_remaining: crate::tower::spec_fire_period(t.tower_type) as u32,
                        target_id: Some(e.id),
                        aim_dx: (e.x - cx) as i64,
                        aim_dy: (e.y - cy) as i64,
                        ..t
                    };
                    let pr = Projectile {
                        id: r.3,
                        tower_type: t.tower_type,
                        x: cx as i64,
                        y: cy as i64,
                        target_id: e.id,
                        target_x: e.x,
                        target_y: e.y,
                        damage: crate::tower::spec_damage(t.tower_type) as u32,
                        speed: crate::tower::spec_projectile_speed(t.tower_type) as u32,
                        lifetime: crate::projectile::PROJECTILE_LIFETIME_MS,
                    };
                    let fl = MuzzleFlash {
                        x: cx as i64,
                        y: cy as i64,
                        tower_type: t.tower_type,
                        lifetime: crate::effects::FLASH_LIFETIME_MS,
                        max_lifetime: crate::effects::FLASH_LIFETIME_MS,
                    };
                    (r.0.push(ft), r.1.push(pr), r.2.push(fl), (r.3 + 1) as u64)
                } else {
                    (
                        r.0.push(Tower { cooldown_remaining: 0, target_id: None, ..t }),
                        r.1,
                        r.2,
                        r.3,
                    )
                },
                None => (
                    r.0.push(Tower { cooldown_remaining: 0, target_id: None, ..t }),
                    r.1,
                    r.2,
                    r.3,
                ),
            }
        } else {
            (r.0.push(cooled(t, delta)), r.1, r.2, r.3)
        }
    }
}

/// A chosen target is a valid roster index.
proof fn lemma_target_scan_bounds(es: Seq<Enemy>, t: TowerType, cx: int, cy: int, m: int)
    requires
        m <= es.len(),
    ensures
        match target_scan(es, t, cx, cy, m) {
            Some(j) => 0 <= j < m,
            None => true,
        },
    decreases m,
{
    if m > 0 {
        lemma_target_scan_bounds(es, t, cx, cy, m - 1);
    }
}

/// Structure of the firing phase: tower identity, kind and cell are
/// preserved pointwise; spawned projectile ids are fresh, strictly
/// increasing and consume the allocator; everything spawned is
/// well-formed.
proof fn lemma_towers_phase_props(ts: Seq<Tower>, es: Seq<Enemy>, next_id: u64, delta: u32, i: int)
    requires
        0 <= i <= ts.len(),
        forall|k: int| 0 <= k < es.len() ==> (#[trigger] es[k]).wf(),
    ensures
        ({
            let r = towers_phase(ts, es, next_id, delta, i);
            &&& r.0.len() == i
            &&& forall|k: int|
                0 <= k < i ==> (#[trigger] r.0[k]).id == ts[k].id && r.0[k].tower_type
                    == ts[k].tower_type && r.0[k].position == ts[k].position
            &&& next_id <= r.3
            &&& forall|k: int|
                0 <= k < r.1.len() ==> next_id <= (#[trigger] r.1[k]).id && r.1[k].id < r.3
                    && r.1[k].wf()
            &&& forall|k: int, l: int| 0 <= k < l < r.1.len() ==> r.1[k].id < r.1[l].id
            &&& forall|k: int| 0 <= k < r.2.len() ==> (#[trigger] r.2[k]).wf()
        }),
    decreases i,
{
    if i > 0 {
        lemma_towers_phase_props(ts, es, next_id, delta, i - 1);
        let t = ts[i - 1];
        lemma_target_scan_bounds(
            es,
            t.tower_type,
            tower_center_x(t),
            tower_center_y(t),
            es.len() as int,
        );
    }
}

/// A recorded hit: target enemy id, damage, originating tower kind,
/// and the world-space impact point.
pub type Hit = (u64, u32, TowerType, i64, i64);

/// An enemy after taking damage: health clamps at zero.
pub open spec fn enemy_damaged(e: Enemy, d: u32) -> Enemy {
    Enemy {
        health: (if d >= e.health {
            0
        } else {
            e.health - d
        }) as u32,
        ..e
    }
}

/// An enemy after a Slow hit: damage plus the timed slow effect.
pub open spec fn enemy_damaged_slowed(e: Enemy, d: u32) -> Enemy {
    Enemy {
        slow_duration: crate::game::SLOW_DURATION_MS,
        slow_multiplier: crate::game::SLOW_MULTIPLIER,
        ..enemy_damaged(e, d)
    }
}

/// Squared world-space splash radius of a tower kind.
pub open spec fn splash_world_sq(t: TowerType) -> int {
    (crate::tower::spec_splash_radius(t) * 40) * (crate::tower::spec_splash_radius(t) * 40)
}

/// The roster after one hit is dispatched: a Splash hit damages every
/// enemy within the splash radius of the impact point and only those; a
/// Slow hit damages and slows the direct target; other kinds damage the
/// direct target alone.
pub open spec fn damaged_roster(es: Seq<Enemy>, h: Hit) -> Seq<Enemy> {
    match h.2 {
        TowerType::Splash => Seq::new(
            es.len(),
            |i: int|
                if dist_sq(es[i].x as int, es[i].y as int, h.3 as int, h.4 as int)
                    <= splash_world_sq(h.2) {
                    enemy_damaged(es[i], h.1)
                } else {
                    es[i]
                },
        ),
        TowerType::Slow => Seq::new(
            es.len(),
            |i: int|
                if es[i].id == h.0 {
                    enemy_damaged_slowed(es[i], h.1)
                } else {
                    es[i]
                },
        ),
        _ => Seq::new(
            es.len(),
            |i: int|
                if es[i].id == h.0 {
                    enemy_damaged(es[i], h.1)
                } else {
                    es[i]
                },
        ),
    }
}

/// The alive enemies among the first `i`, in order.
pub open spec fn alive_prefix(es: Seq<Enemy>, i: int) -> Seq<Enemy>
    decreases i,
{
    if i <= 0 {
        Seq::<Enemy>::empty()
    } else {
        alive_prefix(es, i - 1) + if es[i - 1].health > 0 {
            seq![es[i - 1]]
        } else {
            Seq::<Enemy>::empty()
        }
    }
}

/// Number of dead enemies among the first `i`.
pub open spec fn dead_upto(es: Seq<Enemy>, i: int) -> int
    decreases i,
{
    if i <= 0 {
        0
    } else {
        dead_upto(es, i - 1) + (if es[i - 1].health > 0 {
            0int
        } else {
            1int
        })
    }
}

/// There are never negatively many dead enemies.
proof fn lemma_dead_upto_nonneg(es: Seq<Enemy>, i: int)
    requires
        0 <= i,
    ensures
        0 <= dead_upto(es, i),
    decreases i,
{
    if i > 0 {
        lemma_dead_upto_nonneg(es, i - 1);
    }
}

/// Gold after `k` kill rewards, saturating at the maximum.
pub open spec fn gold_after(g: u64, k: int) -> u64 {
    if g + crate::game::KILL_REWARD * k > 0xffff_ffff_ffff_ffffu64 {
        0xffff_ffff_ffff_ffffu64
    } else {
        (g + crate::game::KILL_REWARD * k) as u64
    }
}

/// One hit applied to the state: damage dispatch, then the death
/// sweep — dead enemies are removed and each grants the kill reward —
/// and, for a Splash hit, an explosion ring at the impact point.
pub open spec fn hit_transition(
    es: Seq<Enemy>,
    gold: u64,
    exps: Seq<ExplosionEffect>,
    h: Hit,
) -> (Seq<Enemy>, u64, Seq<ExplosionEffect>) {
    let damaged = damaged_roster(es, h);
    let survivors = alive_prefix(damaged, damaged.len() as int);
    let g2 = gold_after(gold, dead_upto(damaged, damaged.len() as int));
    let ex2 = if h.2 is Splash {
        exps.push(
            ExplosionEffect {
                x: h.3,
                y: h.4,
                radius: 0,
                max_radius: (crate::tower::spec_splash_radius(h.2) * 40) as u64,
                lifetime: crate::effects::EXPLOSION_LIFETIME_MS,
                max_lifetime: crate::effects::EXPLOSION_LIFETIME_MS,
            },
        )
    } else {
        exps
    };
    (survivors, g2, ex2)
}

/// The alive prefix of a roster whose ids increase strictly is itself
/// strictly increasing, well-formed, alive, and id-bounded.
proof fn lemma_alive_prefix_props(es: Seq<Enemy>, hi: u64, i: int)
    requires
        0 <= i <= es.len(),
        forall|a: int, b: int| 0 <= a < b < es.len() ==> es[a].id < es[b].id,
        forall|a: int| 0 <= a < es.len() ==> (#[trigger] es[a]).id < hi && es[a].wf(),
    ensures
        ({
            let r = alive_prefix(es, i);
            &&& r.len() <= i
            &&& forall|a: int, b: int| 0 <= a < b < r.len() ==> r[a].id < r[b].id
            &&& forall|a: int|
                0 <= a < r.len() ==> (#[trigger] r[a]).id < hi && r[a].wf() && r[a].health > 0
            &&& r.len() > 0 && i > 0 ==> r[r.len() - 1].id <= es[i - 1].id
        }),
    decreases i,
{
    if i > 0 {
        lemma_alive_prefix_props(es, hi, i - 1);
    }
}

/// Once an id is first found at `i`, every longer scan returns `i`.
proof fn lemma_enemy_index_from(es: Seq<Enemy>, id: u64, i: int, j: int)
    requires
        0 <= i < es.len(),
        enemy_index_upto(es, id, i).is_none(),
        es[i].id == id,
        i < j <= es.len(),
    ensures
        enemy_index_upto(es, id, j) == Some(i),
    decreases j,
{
    if j > i + 1 {
        lemma_enemy_index_from(es, id, i, j - 1);
    }
}

impl Game {
    /// Applies one recorded hit: dispatches damage by the originating
    /// tower kind — area damage around the impact point for Splash,
    /// damage plus the timed slow for Slow, single-target damage
    /// otherwise — then sweeps the roster once, removing every enemy
    /// whose health reached zero and granting the kill reward for each.
    pub fn apply_damage(
        &mut self,
        enemy_id: u64,
        damage: u32,
        tower_type: TowerType,
        hit_x: i64,
        hit_y: i64,
    )
        requires
            old(self).wf(),
            pos_in_cell_range(hit_x as int),
            pos_in_cell_range(hit_y as int),
        ensures
            ({
                let r = hit_transition(
                    old(self).state.enemies@,
                    old(self).state.gold,
                    old(self).explosions@,
                    (enemy_id, damage, tower_type, hit_x, hit_y),
                );
                &&& final(self).state.enemies@ == r.0
                &&& final(self).state.gold == r.1
                &&& final(self).explosions@ == r.2
            }),
            final(self).state.towers@ == old(self).state.towers@,
            final(self).state.grid == old(self).state.grid,
            final(self).state.spawn_point == old(self).state.spawn_point,
            final(self).state.goal_point == old(self).state.goal_point,
            final(self).state.next_tower_id == old(self).state.next_tower_id,
            final(self).state.next_enemy_id == old(self).state.next_enemy_id,
            final(self).state.health == old(self).state.health,
            final(self).state.paused == old(self).state.paused,
            final(self).projectiles@ == old(self).projectiles@,
            final(self).next_projectile_id == old(self).next_projectile_id,
            final(self).muzzle_flashes@ == old(self).muzzle_flashes@,
            final(self).wf(),
    {
        let ghost es0 = self.state.enemies@;
        let ghost h: Hit = (enemy_id, damage, tower_type, hit_x, hit_y);
        let is_splash = match tower_type {
            TowerType::Splash => true,
            _ => false,
        };
        let srad = tower_type.splash_radius();
        let sw = srad * 40;
        proof {
            assert(srad <= 1500);
            assert((sw as u128) * (sw as u128) <= 3_600_000_000int && (sw as u128) * (sw as u128)
                == splash_world_sq(tower_type)) by (nonlinear_arith)
                requires
                    0 <= sw as u128 <= 60_000,
                    sw == crate::tower::spec_splash_radius(tower_type) * 40,
            ;
        }
        let swsq: u128 = (sw as u128) * (sw as u128);
        let mut pending: Vec<Enemy> = Vec::new();
        core::mem::swap(&mut pending, &mut self.state.enemies);
        while pending.len() > 0
            invariant
                old(self).wf(),
                pos_in_cell_range(hit_x as int),
                pos_in_cell_range(hit_y as int),
                swsq == splash_world_sq(tower_type),
                h == (enemy_id, damage, tower_type, hit_x, hit_y),
                es0 == old(self).state.enemies@,
                is_splash == (tower_type is Splash),
                self.state.enemies@.len() + pending@.len() == es0.len(),
                pending@ == es0.subrange(es0.len() - pending@.len(), es0.len() as int),
                self.state.enemies@ == damaged_roster(es0, h).subrange(
                    0,
                    es0.len() - pending@.len(),
                ),
                self.state.towers@ == old(self).state.towers@,
                self.state.grid == old(self).state.grid,
                self.state.spawn_point == old(self).state.spawn_point,
                self.state.goal_point == old(self).state.goal_point,
                self.state.next_tower_id == old(self).state.next_tower_id,
                self.state.next_enemy_id == old(self).state.next_enemy_id,
                self.state.gold == old(self).state.gold,
                self.state.health == old(self).state.health,
                self.state.paused == old(self).state.paused,
                self.projectiles@ == old(self).projectiles@,
                self.next_projectile_id == old(self).next_projectile_id,
                self.muzzle_flashes@ == old(self).muzzle_flashes@,
                self.explosions@ == old(self).explosions@,
            decreases pending@.len(),
        {
            let ghost k = es0.len() - pending@.len();
            let mut e = pending.remove(0);
            proof {
                assert(e == es0[k]);
                assert(e.wf());
            }
            if is_splash {
                let d2 = dist_sq_world(e.x, e.y, hit_x, hit_y);
                if d2 <= swsq {
                    e.take_damage(damage);
                }
            } else {
                if e.id == enemy_id {
                    e.take_damage(damage);
                    if match tower_type {
                        TowerType::Slow => true,
                        _ => false,
                    } {
                        e.apply_slow(crate::game::SLOW_DURATION_MS, crate::game::SLOW_MULTIPLIER);
                    }
                }
            }
            self.state.enemies.push(e);
            proof {
                assert(self.state.enemies@ =~= damaged_roster(es0, h).subrange(0, k + 1));
            }
        }
        proof {
            assert(self.state.enemies@ =~= damaged_roster(es0, h));
        }
        if is_splash {
            let ring = ExplosionEffect::new(hit_x, hit_y, srad);
            self.explosions.push(ring);
        }
        // Death sweep: remove dead enemies, reward each kill once.
        let ghost damaged0 = self.state.enemies@;
        let mut dead_pending: Vec<Enemy> = Vec::new();
        core::mem::swap(&mut dead_pending, &mut self.state.enemies);
        while dead_pending.len() > 0
            invariant
                damaged0 == damaged_roster(es0, h),
                es0 == old(self).state.enemies@,
                h == (enemy_id, damage, tower_type, hit_x, hit_y),
                self.state.enemies@.len() + dead_pending@.len() <= damaged0.len(),
                dead_pending@ == damaged0.subrange(
                    damaged0.len() - dead_pending@.len(),
                    damaged0.len() as int,
                ),
                self.state.enemies@ == alive_prefix(damaged0, damaged0.len() - dead_pending@.len()),
                self.state.gold == gold_after(
                    old(self).state.gold,
                    dead_upto(damaged0, damaged0.len() - dead_pending@.len()),
                ),
                self.state.towers@ == old(self).state.towers@,
                self.state.grid == old(self).state.grid,
                self.state.spawn_point == old(self).state.spawn_point,
                self.state.goal_point == old(self).state.goal_point,
                self.state.next_tower_id == old(self).state.next_tower_id,
                self.state.next_enemy_id == old(self).state.next_enemy_id,
                self.state.health == old(self).state.health,
                self.state.paused == old(self).state.paused,
                self.projectiles@ == old(self).projectiles@,
                self.next_projectile_id == old(self).next_projectile_id,
                self.muzzle_flashes@ == old(self).muzzle_flashes@,
                self.explosions@ == if h.2 is Splash {
                    old(self).explosions@.push(
                        ExplosionEffect {
                            x: h.3,
                            y: h.4,
                            radius: 0,
                            max_radius: (crate::tower::spec_splash_radius(h.2) * 40) as u64,
                            lifetime: crate::effects::EXPLOSION_LIFETIME_MS,
                            max_lifetime: crate::effects::EXPLOSION_LIFETIME_MS,
                        },
                    )
                } else {
                    old(self).explosions@
                },
            decreases dead_pending@.len(),
        {
            let ghost k = damaged0.len() - dead_pending@.len();
            let e = dead_pending.remove(0);
            proof {
                assert(e == damaged0[k]);
            }
            if e.health > 0 {
                self.state.enemies.push(e);
                proof {
                    assert(self.state.enemies@ =~= alive_prefix(damaged0, k + 1));
                    assert(dead_upto(damaged0, k + 1) == dead_upto(damaged0, k));
                }
            } else {
                let ghost g_pre = self.state.gold;
                if self.state.gold <= 18_446_744_073_709_551_615u64 - crate::game::KILL_REWARD {
                    self.state.gold = self.state.gold + crate::game::KILL_REWARD;
                } else {
                    self.state.gold = 18_446_744_073_709_551_615u64;
                }
                proof {
                    assert(self.state.enemies@ =~= alive_prefix(damaged0, k + 1));
                    let d = dead_upto(damaged0, k);
                    lemma_dead_upto_nonneg(damaged0, k);
                    assert(dead_upto(damaged0, k + 1) == d + 1);
                    assert(crate::game::KILL_REWARD * (d + 1) == crate::game::KILL_REWARD * d
                        + crate::game::KILL_REWARD) by (nonlinear_arith);
                    assert(self.state.gold == gold_after(old(self).state.gold, d + 1));
                }
            }
        }
        proof {
            let s = *self;
            let o = *old(self);
            assert(s.state.enemies@ == alive_prefix(damaged0, damaged0.len() as int));
            assert forall|a: int|
                0 <= a < damaged0.len() implies (#[trigger] damaged0[a]).id == es0[a].id
                && damaged0[a].wf() by {
                assert(es0[a].wf());
            }
            assert forall|a: int, b: int| 0 <= a < b < damaged0.len() implies damaged0[a].id
                < damaged0[b].id by {
                assert(damaged0[a].id == es0[a].id && damaged0[b].id == es0[b].id);
            }
            lemma_alive_prefix_props(damaged0, o.state.next_enemy_id, damaged0.len() as int);
        }
    }
}

/// The aim point handed to a projectile this tick: the target enemy's
/// current position while it exists.
pub open spec fn proj_aim(es: Seq<Enemy>, p: Projectile) -> Option<(i64, i64)> {
    match enemy_index(es, p.target_id) {
        Some(j) => Some((es[j].x, es[j].y)),
        None => None,
    }
}

/// Whether the stepped projectile is close enough to its aim point for
/// its removal to count as a hit.
pub open spec fn proj_hit_now(p: Projectile, delta: u32, es: Seq<Enemy>) -> bool {
    let st = crate::projectile::proj_stepped(p, delta, proj_aim(es, p));
    dist_sq(st.x as int, st.y as int, st.target_x as int, st.target_y as int)
        < crate::projectile::PROJECTILE_HIT_SQ
}

/// Whether the projectile is removed this tick: it stopped flying
/// (arrival, reaching the aim point, or expiry) or it is within hit
/// distance after its step.
pub open spec fn proj_removed(p: Projectile, delta: u32, es: Seq<Enemy>) -> bool {
    !crate::projectile::proj_in_flight(p, delta, proj_aim(es, p)) || proj_hit_now(p, delta, es)
}

/// The flight phase over the first `i` projectiles: the stepped
/// survivors in order, and the hits collected for the damage phase. A
/// removal deals damage only when the distance check passes and the
/// target enemy still exists; expiry without proximity is a clean miss.
pub open spec fn flight_phase(
    ps: Seq<Projectile>,
    es: Seq<Enemy>,
    delta: u32,
    i: int,
) -> (Seq<Projectile>, Seq<Hit>)
    decreases i,
{
    if i <= 0 {
        (Seq::<Projectile>::empty(), Seq::<Hit>::empty())
    } else {
        let r = flight_phase(ps, es, delta, i - 1);
        let p = ps[i - 1];
        let st = crate::projectile::proj_stepped(p, delta, proj_aim(es, p));
        if !proj_removed(p, delta, es) {
            (r.0.push(st), r.1)
        } else {
            let hits = if proj_hit_now(p, delta, es) && enemy_index(es, p.target_id).is_some() {
                let j = match enemy_index(es, p.target_id) {
                    Some(j) => j,
                    None => 0,
                };
                r.1.push((p.target_id, p.damage, p.tower_type, es[j].x, es[j].y))
            } else {
                r.1
            };
            (r.0, hits)
        }
    }
}

/// The damage phase: the first `i` collected hits applied in order to
/// the roster, the gold and the explosion list.
pub open spec fn apply_hits(
    es: Seq<Enemy>,
    gold: u64,
    exps: Seq<ExplosionEffect>,
    hits: Seq<Hit>,
    i: int,
) -> (Seq<Enemy>, u64, Seq<ExplosionEffect>)
    decreases i,
{
    if i <= 0 {
        (es, gold, exps)
    } else {
        let r = apply_hits(es, gold, exps, hits, i - 1);
        hit_transition(r.0, r.1, r.2, hits[i - 1])
    }
}

/// Structure of the flight phase: surviving projectiles keep their
/// strictly increasing ids and stay well-formed; every collected hit
/// strikes at a well-formed enemy position.
proof fn lemma_flight_phase_props(ps: Seq<Projectile>, es: Seq<Enemy>, delta: u32, i: int)
    requires
        0 <= i <= ps.len(),
        forall|k: int| 0 <= k < ps.len() ==> (#[trigger] ps[k]).wf(),
        forall|k: int, l: int| 0 <= k < l < ps.len() ==> ps[k].id < ps[l].id,
        forall|k: int| 0 <= k < es.len() ==> (#[trigger] es[k]).wf(),
    ensures
        ({
            let r = flight_phase(ps, es, delta, i);
            &&& r.0.len() <= i
            &&& forall|k: int| 0 <= k < r.0.len() ==> (#[trigger] r.0[k]).wf()
            &&& forall|k: int, l: int| 0 <= k < l < r.0.len() ==> r.0[k].id < r.0[l].id
            &&& (r.0.len() > 0 && i > 0 ==> r.0[r.0.len() - 1].id <= ps[i - 1].id)
            &&& forall|k: int|
                0 <= k < r.1.len() ==> pos_in_cell_range((#[trigger] r.1[k]).3 as int)
                    && pos_in_cell_range(r.1[k].4 as int)
        }),
    decreases i,
{
    if i > 0 {
        lemma_flight_phase_props(ps, es, delta, i - 1);
        let p = ps[i - 1];
        lemma_enemy_index_bounds(es, p.target_id, es.len() as int);
        let aim = proj_aim(es, p);
        let tx = crate::projectile::aim_point(p, aim).0;
        let ty = crate::projectile::aim_point(p, aim).1;
        assert(pos_in_cell_range(tx) && pos_in_cell_range(ty));
        assert(p.speed * delta >= 0) by (nonlinear_arith)
            requires
                p.speed >= 0,
                delta >= 0,
        ;
        vstd::arithmetic::div_mod::lemma_div_pos_is_pos(p.speed * delta, 1000);
        crate::geometry::lemma_move_toward_between(
            p.x as int,
            p.y as int,
            tx,
            ty,
            crate::projectile::flight_step(p, delta),
        );
    }
}

/// An enemy index found by scanning is a valid roster index.
proof fn lemma_enemy_index_bounds(es: Seq<Enemy>, id: u64, m: int)
    requires
        m <= es.len(),
    ensures
        match enemy_index_upto(es, id, m) {
            Some(j) => 0 <= j < m,
            None => true,
        },
    decreases m,
{
    if m > 0 {
        lemma_enemy_index_bounds(es, id, m - 1);
    }
}

impl Game {
    /// Projectile phase of one tick: every projectile re-aims at its
    /// target's current position (or keeps flying toward the last known
    /// point when the target is gone), loses lifetime, and advances;
    /// those that arrive, reach their aim point or expire are removed.
    /// Hits are collected during the scan and the damage — splash, slow
    /// and death sweep included — is applied only afterwards, so no
    /// enemy is mutated while the roster is being scanned.
    pub fn update_projectiles(&mut self, delta: u32)
        requires
            old(self).wf(),
        ensures
            ({
                let f = flight_phase(
                    old(self).projectiles@,
                    old(self).state.enemies@,
                    delta,
                    old(self).projectiles@.len() as int,
                );
                let a = apply_hits(
                    old(self).state.enemies@,
                    old(self).state.gold,
                    old(self).explosions@,
                    f.1,
                    f.1.len() as int,
                );
                &&& final(self).projectiles@ == f.0
                &&& final(self).state.enemies@ == a.0
                &&& final(self).state.gold == a.1
                &&& final(self).explosions@ == a.2
            }),
            final(self).state.towers@ == old(self).state.towers@,
            final(self).state.grid == old(self).state.grid,
            final(self).state.spawn_point == old(self).state.spawn_point,
            final(self).state.goal_point == old(self).state.goal_point,
            final(self).state.next_tower_id == old(self).state.next_tower_id,
            final(self).state.next_enemy_id == old(self).state.next_enemy_id,
            final(self).state.health == old(self).state.health,
            final(self).state.paused == old(self).state.paused,
            final(self).next_projectile_id == old(self).next_projectile_id,
            final(self).muzzle_flashes@ == old(self).muzzle_flashes@,
            final(self).wf(),
    {
        let ghost ps0 = self.projectiles@;
        let ghost es0 = self.state.enemies@;
        let n = self.projectiles.len();
        let mut kept: Vec<Projectile> = Vec::new();
        let mut hits: Vec<(u64, u32, TowerType, i64, i64)> = Vec::new();
        let mut i: usize = 0;
        while i < n
            invariant
                old(self).wf(),
                *self == *old(self),
                ps0 == self.projectiles@,
                es0 == self.state.enemies@,
                n == ps0.len(),
                0 <= i <= n,
                ({
                    let f = flight_phase(ps0, es0, delta, i as int);
                    kept@ == f.0 && hits@ == f.1
                }),
            decreases n - i,
        {
            let p = self.projectiles[i];
            let idx = find_enemy_index(&self.state.enemies, p.target_id);
            let aim = match idx {
                Some(j) => Some((self.state.enemies[j].x, self.state.enemies[j].y)),
                None => None,
            };
            proof {
                assert(p.wf());
                match idx {
                    Some(j) => {
                        assert(self.state.enemies@[j as int].wf());
                    },
                    None => {},
                }
                assert(aim == proj_aim(es0, p));
            }
            let mut q = p;
            let in_flight = q.update(delta, aim);
            let hit_now = q.has_hit();
            if in_flight && !hit_now {
                kept.push(q);
            } else {
                if hit_now {
                    match idx {
                        Some(j) => {
                            hits.push(
                                (
                                    p.target_id,
                                    p.damage,
                                    p.tower_type,
                                    self.state.enemies[j].x,
                                    self.state.enemies[j].y,
                                ),
                            );
                        },
                        None => {},
                    }
                }
            }
            i = i + 1;
        }
        self.projectiles = kept;
        // Apply the collected hits only now that the scan is over.
        proof {
            lemma_flight_phase_props(ps0, es0, delta, n as int);
            let f = flight_phase(ps0, es0, delta, n as int);
            assert forall|a: int| 0 <= a < f.0.len() implies (#[trigger] f.0[a]).id
                < self.next_projectile_id by {
                if a < f.0.len() - 1 {
                    assert(f.0[a].id < f.0[f.0.len() - 1].id);
                }
                assert(f.0[f.0.len() - 1].id <= ps0[n - 1].id);
                assert(ps0[n - 1].id < old(self).next_projectile_id);
            }
        }
        let ghost hits0 = hits@;
        let m = hits.len();
        let mut k: usize = 0;
        while k < m
            invariant
                pos_in_cell_range_hits(hits0),
                hits0 == hits@,
                m == hits0.len(),
                0 <= k <= m,
                es0 == old(self).state.enemies@,
                self.projectiles@ == flight_phase(ps0, es0, delta, ps0.len() as int).0,
                ({
                    let a = apply_hits(
                        es0,
                        old(self).state.gold,
                        old(self).explosions@,
                        hits0,
                        k as int,
                    );
                    &&& self.state.enemies@ == a.0
                    &&& self.state.gold == a.1
                    &&& self.explosions@ == a.2
                }),
                self.state.towers@ == old(self).state.towers@,
                self.state.grid == old(self).state.grid,
                self.state.spawn_point == old(self).state.spawn_point,
                self.state.goal_point == old(self).state.goal_point,
                self.state.next_tower_id == old(self).state.next_tower_id,
                self.state.next_enemy_id == old(self).state.next_enemy_id,
                self.state.health == old(self).state.health,
                self.state.paused == old(self).state.paused,
                self.next_projectile_id == old(self).next_projectile_id,
                self.muzzle_flashes@ == old(self).muzzle_flashes@,
                self.wf(),
            decreases m - k,
        {
            let h = hits[k];
            self.apply_damage(h.0, h.1, h.2, h.3, h.4);
            k = k + 1;
        }
    }
}

/// The movement phase over the first `i` enemies: the stepped enemies
/// still on their way, in order, and the number that leaked (reached
/// the goal and left the field).
pub open spec fn walk_phase(es: Seq<Enemy>, delta: u32, i: int) -> (Seq<Enemy>, int)
    decreases i,
{
    if i <= 0 {
        (Seq::<Enemy>::empty(), 0int)
    } else {
        let r = walk_phase(es, delta, i - 1);
        let e = es[i - 1];
        if crate::enemy::still_walking(e, delta) {
            (r.0.push(crate::enemy::stepped(e, delta)), r.1)
        } else {
            (r.0, r.1 + 1)
        }
    }
}

/// Defender health after `k` leaks, never wrapping below the minimum.
pub open spec fn health_after(h: i64, k: int) -> i64 {
    if h - k < i64::MIN {
        i64::MIN
    } else {
        (h - k) as i64
    }
}

/// Structure of the movement phase: survivors keep their strictly
/// increasing ids, stay well-formed and alive, and the leak count is
/// between zero and `i`.
proof fn lemma_walk_phase_props(es: Seq<Enemy>, hi: u64, delta: u32, i: int)
    requires
        0 <= i <= es.len(),
        forall|a: int, b: int| 0 <= a < b < es.len() ==> es[a].id < es[b].id,
        forall|a: int|
            0 <= a < es.len() ==> (#[trigger] es[a]).id < hi && es[a].wf() && es[a].health > 0,
    ensures
        ({
            let r = walk_phase(es, delta, i);
            &&& r.0.len() <= i
            &&& 0 <= r.1 <= i
            &&& forall|a: int, b: int| 0 <= a < b < r.0.len() ==> r.0[a].id < r.0[b].id
            &&& forall|a: int|
                0 <= a < r.0.len() ==> (#[trigger] r.0[a]).id < hi && r.0[a].wf()
                    && r.0[a].health > 0
            &&& (r.0.len() > 0 && i > 0 ==> r.0[r.0.len() - 1].id <= es[i - 1].id)
        }),
    decreases i,
{
    if i > 0 {
        lemma_walk_phase_props(es, hi, delta, i - 1);
        let e = es[i - 1];
        if e.current_waypoint < e.path@.len() {
            let w = e.path@[e.current_waypoint as int];
            let tx = cell_center(w.x as int);
            let ty = cell_center(w.y as int);
            let sm = crate::enemy::slow_mult_after(e, delta);
            assert(e.speed * sm >= 0) by (nonlinear_arith)
                requires
                    e.speed >= 0,
                    sm >= 0,
            ;
            vstd::arithmetic::div_mod::lemma_div_pos_is_pos(e.speed * sm, 1000);
            let eff = e.speed * sm / 1000;
            assert(eff * delta >= 0) by (nonlinear_arith)
                requires
                    eff >= 0,
                    delta >= 0,
            ;
            vstd::arithmetic::div_mod::lemma_div_pos_is_pos(eff * delta, 1000);
            crate::geometry::lemma_move_toward_between(
                e.x as int,
                e.y as int,
                tx,
                ty,
                crate::enemy::move_step_len(e, delta),
            );
        }
    }
}

/// A muzzle flash after one tick of decay.
pub open spec fn flash_stepped(f: MuzzleFlash, delta: u32) -> MuzzleFlash {
    MuzzleFlash {
        lifetime: (if delta >= f.lifetime {
            0
        } else {
            f.lifetime - delta
        }) as u32,
        ..f
    }
}

/// The muzzle flashes still visible after one tick, in order.
pub open spec fn flashes_phase(fs: Seq<MuzzleFlash>, delta: u32, i: int) -> Seq<MuzzleFlash>
    decreases i,
{
    if i <= 0 {
        Seq::<MuzzleFlash>::empty()
    } else {
        let r = flashes_phase(fs, delta, i - 1);
        let f = flash_stepped(fs[i - 1], delta);
        if f.lifetime > 0 {
            r.push(f)
        } else {
            r
        }
    }
}

/// An explosion ring after one tick of decay: the radius is the elapsed
/// fraction of the maximal radius.
pub open spec fn explosion_stepped(x: ExplosionEffect, delta: u32) -> ExplosionEffect {
    let lt = (if delta >= x.lifetime {
        0
    } else {
        x.lifetime - delta
    }) as u32;
    ExplosionEffect {
        lifetime: lt,
        radius: (x.max_radius * ((x.max_lifetime - lt) as u64) / (x.max_lifetime as int)) as u64,
        ..x
    }
}

/// The explosion rings still visible after one tick, in order.
pub open spec fn explosions_phase(xs: Seq<ExplosionEffect>, delta: u32, i: int) -> Seq<
    ExplosionEffect,
>
    decreases i,
{
    if i <= 0 {
        Seq::<ExplosionEffect>::empty()
    } else {
        let r = explosions_phase(xs, delta, i - 1);
        let x = explosion_stepped(xs[i - 1], delta);
        if x.lifetime > 0 {
            r.push(x)
        } else {
            r
        }
    }
}

impl Game {
    /// Enemy phase of one tick: every enemy advances along its path;
    /// one that has walked past its final waypoint has leaked — it is
    /// removed and costs the defender one unit of health.
    pub fn update_enemies(&mut self, delta: u32)
        requires
            old(self).wf(),
        ensures
            ({
                let r = walk_phase(
                    old(self).state.enemies@,
                    delta,
                    old(self).state.enemies@.len() as int,
                );
                &&& final(self).state.enemies@ == r.0
                &&& final(self).state.health == health_after(old(self).state.health, r.1)
            }),
            final(self).state.towers@ == old(self).state.towers@,
            final(self).state.grid == old(self).state.grid,
            final(self).state.spawn_point == old(self).state.spawn_point,
            final(self).state.goal_point == old(self).state.goal_point,
            final(self).state.next_tower_id == old(self).state.next_tower_id,
            final(self).state.next_enemy_id == old(self).state.next_enemy_id,
            final(self).state.gold == old(self).state.gold,
            final(self).state.paused == old(self).state.paused,
            final(self).projectiles@ == old(self).projectiles@,
            final(self).next_projectile_id == old(self).next_projectile_id,
            final(self).muzzle_flashes@ == old(self).muzzle_flashes@,
            final(self).explosions@ == old(self).explosions@,
            final(self).wf(),
    {
        let ghost es0 = self.state.enemies@;
        let mut pending: Vec<Enemy> = Vec::new();
        core::mem::swap(&mut pending, &mut self.state.enemies);
        while pending.len() > 0
            invariant
                old(self).wf(),
                es0 == old(self).state.enemies@,
                self.state.enemies@.len() + pending@.len() <= es0.len(),
                pending@ == es0.subrange(es0.len() - pending@.len(), es0.len() as int),
                ({
                    let r = walk_phase(es0, delta, es0.len() - pending@.len());
                    &&& self.state.enemies@ == r.0
                    &&& self.state.health == health_after(old(self).state.health, r.1)
                }),
                self.state.towers@ == old(self).state.towers@,
                self.state.grid == old(self).state.grid,
                self.state.spawn_point == old(self).state.spawn_point,
                self.state.goal_point == old(self).state.goal_point,
                self.state.next_tower_id == old(self).state.next_tower_id,
                self.state.next_enemy_id == old(self).state.next_enemy_id,
                self.state.gold == old(self).state.gold,
                self.state.paused == old(self).state.paused,
                self.projectiles@ == old(self).projectiles@,
                self.next_projectile_id == old(self).next_projectile_id,
                self.muzzle_flashes@ == old(self).muzzle_flashes@,
                self.explosions@ == old(self).explosions@,
            decreases pending@.len(),
        {
            let ghost k = es0.len() - pending@.len();
            let mut e = pending.remove(0);
            proof {
                assert(e == es0[k]);
                assert(e.wf());
            }
            let walking = e.update(delta);
            if walking {
                self.state.enemies.push(e);
            } else {
                proof {
                    let r_pre = walk_phase(es0, delta, k);
                    lemma_walk_phase_props(es0, old(self).state.next_enemy_id, delta, k);
                    lemma_walk_lower_bound_health(old(self).state.health, r_pre.1);
                }
                if self.state.health > i64::MIN {
                    self.state.health = self.state.health - 1;
                }
            }
        }
        proof {
            lemma_walk_phase_props(
                es0,
                old(self).state.next_enemy_id,
                delta,
                es0.len() as int,
            );
        }
    }

    /// Effect phase of one tick: muzzle flashes and explosion rings
    /// decay; expired ones are dropped.
    pub fn update_effects(&mut self, delta: u32)
        requires
            old(self).wf(),
        ensures
            final(self).muzzle_flashes@ == flashes_phase(
                old(self).muzzle_flashes@,
                delta,
                old(self).muzzle_flashes@.len() as int,
            ),
            final(self).explosions@ == explosions_phase(
                old(self).explosions@,
                delta,
                old(self).explosions@.len() as int,
            ),
            final(self).state == old(self).state,
            final(self).projectiles@ == old(self).projectiles@,
            final(self).next_projectile_id == old(self).next_projectile_id,
            final(self).wf(),
    {
        let ghost fs0 = self.muzzle_flashes@;
        let mut fpending: Vec<MuzzleFlash> = Vec::new();
        core::mem::swap(&mut fpending, &mut self.muzzle_flashes);
        while fpending.len() > 0
            invariant
                old(self).wf(),
                fs0 == old(self).muzzle_flashes@,
                self.muzzle_flashes@.len() + fpending@.len() <= fs0.len(),
                fpending@ == fs0.subrange(fs0.len() - fpending@.len(), fs0.len() as int),
                self.muzzle_flashes@ == flashes_phase(fs0, delta, fs0.len() - fpending@.len()),
                forall|a: int|
                    0 <= a < self.muzzle_flashes@.len() ==> (#[trigger] self.muzzle_flashes@[
                        a
                    ]).wf(),
                self.state == old(self).state,
                self.projectiles@ == old(self).projectiles@,
                self.next_projectile_id == old(self).next_projectile_id,
                self.explosions@ == old(self).explosions@,
            decreases fpending@.len(),
        {
            let ghost k = fs0.len() - fpending@.len();
            let mut f = fpending.remove(0);
            proof {
                assert(f == fs0[k]);
                assert(f.wf());
            }
            let alive = f.update(delta);
            if alive {
                self.muzzle_flashes.push(f);
            }
        }
        let ghost xs0 = self.explosions@;
        let mut xpending: Vec<ExplosionEffect> = Vec::new();
        core::mem::swap(&mut xpending, &mut self.explosions);
        while xpending.len() > 0
            invariant
                old(self).wf(),
                fs0 == old(self).muzzle_flashes@,
                xs0 == old(self).explosions@,
                self.muzzle_flashes@ == flashes_phase(fs0, delta, fs0.len() as int),
                forall|a: int|
                    0 <= a < self.muzzle_flashes@.len() ==> (#[trigger] self.muzzle_flashes@[
                        a
                    ]).wf(),
                self.explosions@.len() + xpending@.len() <= xs0.len(),
                xpending@ == xs0.subrange(xs0.len() - xpending@.len(), xs0.len() as int),
                self.explosions@ == explosions_phase(xs0, delta, xs0.len() - xpending@.len()),
                forall|a: int|
                    0 <= a < self.explosions@.len() ==> (#[trigger] self.explosions@[a]).wf(),
                self.state == old(self).state,
                self.projectiles@ == old(self).projectiles@,
                self.next_projectile_id == old(self).next_projectile_id,
            decreases xpending@.len(),
        {
            let ghost k = xs0.len() - xpending@.len();
            let mut x = xpending.remove(0);
            proof {
                assert(x == xs0[k]);
                assert(x.wf());
            }
            let alive = x.update(delta);
            if alive {
                self.explosions.push(x);
            }
        }
    }

    /// Advances the whole simulation by `delta` milliseconds, in the
    /// fixed phase order: tower cooldowns and firing, projectile flight
    /// and hit resolution, damage application and the death sweep,
    /// enemy movement and leak detection, then effect decay. A paused
    /// game does not change at all.
    pub fn update(&mut self, delta: u32)
        requires
            old(self).wf(),
        ensures
            old(self).state.paused ==> *final(self) == *old(self),
            !old(self).state.paused ==> ({
                let tr = towers_phase(
                    old(self).state.towers@,
                    old(self).state.enemies@,
                    old(self).next_projectile_id,
                    delta,
                    old(self).state.towers@.len() as int,
                );
                let ps = old(self).projectiles@ + tr.1;
                let f = flight_phase(ps, old(self).state.enemies@, delta, ps.len() as int);
                let a = apply_hits(
                    old(self).state.enemies@,
                    old(self).state.gold,
                    old(self).explosions@,
                    f.1,
                    f.1.len() as int,
                );
                let w = walk_phase(a.0, delta, a.0.len() as int);
                let fs = old(self).muzzle_flashes@ + tr.2;
                &&& final(self).state.towers@ == tr.0
                &&& final(self).next_projectile_id == tr.3
                &&& final(self).projectiles@ == f.0
                &&& final(self).state.enemies@ == w.0
                &&& final(self).state.gold == a.1
                &&& final(self).state.health == health_after(old(self).state.health, w.1)
                &&& final(self).muzzle_flashes@ == flashes_phase(fs, delta, fs.len() as int)
                &&& final(self).explosions@ == explosions_phase(a.2, delta, a.2.len() as int)
            }),
            final(self).state.grid == old(self).state.grid,
            final(self).state.spawn_point == old(self).state.spawn_point,
            final(self).state.goal_point == old(self).state.goal_point,
            final(self).state.next_tower_id == old(self).state.next_tower_id,
            final(self).state.next_enemy_id == old(self).state.next_enemy_id,
            final(self).state.paused == old(self).state.paused,
            final(self).state.towers@.len() == old(self).state.towers@.len(),
            forall|i: int|
                0 <= i < old(self).state.towers@.len() ==> (#[trigger] final(self).state.towers@[
                    i
                ]).id == old(self).state.towers@[i].id && final(self).state.towers@[i].tower_type
                    == old(self).state.towers@[i].tower_type && final(self).state.towers@[
                    i
                ].position == old(self).state.towers@[i].position,
            final(self).wf(),
    {
        if self.state.paused {
            return;
        }
        proof {
            lemma_towers_phase_props(
                self.state.towers@,
                self.state.enemies@,
                self.next_projectile_id,
                delta,
                self.state.towers@.len() as int,
            );
        }
        self.update_towers(delta);
        self.update_projectiles(delta);
        self.update_enemies(delta);
        self.update_effects(delta);
    }
}

/// One more leak keeps the defender's health above the representable
/// minimum exactly when the clamp says so.
proof fn lemma_walk_lower_bound_health(h: i64, k: int)
    requires
        0 <= k,
    ensures
        health_after(h, k + 1) == if health_after(h, k) > i64::MIN {
            (health_after(h, k) - 1) as i64
        } else {
            health_after(h, k)
        },
{
}

/// Every hit in the list strikes at a coordinate in the world range.
pub open spec fn pos_in_cell_range_hits(hits: Seq<Hit>) -> bool {
    forall|k: int|
        0 <= k < hits.len() ==> pos_in_cell_range((#[trigger] hits[k]).3 as int)
            && pos_in_cell_range(hits[k].4 as int)
}

/// Looks up an enemy by id, returning the first matching index.
pub fn find_enemy_index(es: &Vec<Enemy>, id: u64) -> (r: Option<usize>)
    ensures
        match r {
            Some(u) => u < es@.len() && enemy_index(es@, id) == Some(u as int),
            None => enemy_index(es@, id).is_none(),
        },
{
    let mut i: usize = 0;
    while i < es.len()
        invariant
            0 <= i <= es@.len(),
            enemy_index_upto(es@, id, i as int).is_none(),
        decreases es@.len() - i,
    {
        if es[i].id == id {
            proof {
                lemma_enemy_index_from(es@, id, i as int, es@.len() as int);
            }
            return Some(i);
        }
        i = i + 1;
    }
    None
}

/// Splash coverage: a Splash hit at impact point `(h.3, h.4)` damages
/// every enemy within the kind's splash radius of that point — health
/// dropping to `max(health - damage, 0)` — and leaves every enemy
/// outside the radius exactly as it was.
pub proof fn lemma_splash_coverage(es: Seq<Enemy>, h: Hit)
    requires
        h.2 is Splash,
    ensures
        damaged_roster(es, h).len() == es.len(),
        forall|k: int|
            0 <= k < es.len() ==> #[trigger] damaged_roster(es, h)[k] == if dist_sq(
                es[k].x as int,
                es[k].y as int,
                h.3 as int,
                h.4 as int,
            ) <= splash_world_sq(h.2) {
                enemy_damaged(es[k], h.1)
            } else {
                es[k]
            },
{
}

/// The alive prefix keeps exactly the alive enemies: its length plus
/// the dead count restores the roster size, every alive enemy occurs in
/// it, and (with distinct ids) no dead enemy's id survives.
proof fn lemma_alive_prefix_exact(s: Seq<Enemy>, i: int)
    requires
        0 <= i <= s.len(),
        forall|a: int, b: int| 0 <= a < b < s.len() ==> s[a].id != s[b].id,
    ensures
        ({
            let r = alive_prefix(s, i);
            &&& r.len() + dead_upto(s, i) == i
            &&& forall|k: int|
                0 <= k < i && s[k].health > 0 ==> (exists|m: int|
                    0 <= m < r.len() && #[trigger] r[m] == s[k])
            &&& forall|k: int, m: int|
                #![trigger alive_prefix(s, i)[m], s[k]]
                0 <= k < s.len() && s[k].health == 0 && 0 <= m < r.len()
                    ==> alive_prefix(s, i)[m].id != s[k].id
            &&& forall|m: int|
                0 <= m < r.len() ==> (exists|k: int|
                    0 <= k < i && #[trigger] r[m] == s[k] && s[k].health > 0)
        }),
    decreases i,
{
    if i > 0 {
        lemma_alive_prefix_exact(s, i - 1);
        let r = alive_prefix(s, i);
        let rp = alive_prefix(s, i - 1);
        assert forall|k: int|
            0 <= k < i && s[k].health > 0 implies (exists|m: int|
            0 <= m < r.len() && #[trigger] r[m] == s[k]) by {
            if k == i - 1 {
                assert(r[r.len() - 1] == s[k]);
            } else {
                let m = choose|m: int| 0 <= m < rp.len() && #[trigger] rp[m] == s[k];
                assert(r[m] == s[k]);
            }
        }
        assert forall|k: int, m: int|
            #![trigger alive_prefix(s, i)[m], s[k]]
            0 <= k < s.len() && s[k].health == 0 && 0 <= m < r.len() implies alive_prefix(
            s,
            i,
        )[m].id != s[k].id by {
            if m < rp.len() {
                assert(r[m] == rp[m]);
            } else {
                let j = choose|j: int| 0 <= j < i && #[trigger] r[m] == s[j] && s[j].health > 0;
            }
        }
        assert forall|m: int| 0 <= m < r.len() implies (exists|k: int|
            0 <= k < i && #[trigger] r[m] == s[k] && s[k].health > 0) by {
            if m < rp.len() {
                let k = choose|k: int|
                    0 <= k < i - 1 && #[trigger] rp[m] == s[k] && s[k].health > 0;
                assert(r[m] == s[k]);
            } else {
                assert(r[m] == s[i - 1]);
            }
        }
    }
}

/// Death and reward, in one statement: applying a hit removes exactly
/// the enemies whose health reached zero — each surviving entry is one
/// of the damaged enemies, still alive, and no dead enemy's id remains
/// — and gold grows by exactly one kill reward per removed enemy
/// whenever the total stays representable.
pub proof fn lemma_death_and_reward(es: Seq<Enemy>, gold: u64, exps: Seq<ExplosionEffect>, h: Hit)
    requires
        forall|a: int, b: int| 0 <= a < b < es.len() ==> es[a].id < es[b].id,
    ensures
        ({
            let damaged = damaged_roster(es, h);
            let dead = dead_upto(damaged, damaged.len() as int);
            let r = hit_transition(es, gold, exps, h);
            &&& r.0.len() + dead == es.len()
            &&& forall|k: int|
                0 <= k < damaged.len() && damaged[k].health > 0 ==> (exists|m: int|
                    0 <= m < r.0.len() && #[trigger] r.0[m] == damaged[k])
            &&& forall|k: int, m: int|
                #![trigger hit_transition(es, gold, exps, h).0[m], damaged_roster(es, h)[k]]
                0 <= k < damaged.len() && damaged[k].health == 0 && 0 <= m < r.0.len()
                    ==> hit_transition(es, gold, exps, h).0[m].id != damaged[k].id
            &&& (gold + crate::game::KILL_REWARD * dead <= 0xffff_ffff_ffff_ffffu64 ==> r.1 == gold
                + crate::game::KILL_REWARD * dead)
        }),
{
    let damaged = damaged_roster(es, h);
    assert forall|a: int, b: int| 0 <= a < b < damaged.len() implies damaged[a].id != damaged[
        b
    ].id by {
        assert(damaged[a].id == es[a].id && damaged[b].id == es[b].id);
    }
    lemma_alive_prefix_exact(damaged, damaged.len() as int);
    lemma_dead_upto_nonneg(damaged, damaged.len() as int);
}

} // verus!
