use tower_defense_core::grid::Grid;
use tower_defense_core::position::Position;
use tower_defense_core::tower::{Tower, TowerType};
use tower_defense_core::enemy::Enemy;
use tower_defense_core::projectile::Projectile;
use tower_defense_core::effects::{MuzzleFlash, ExplosionEffect};

#[test]
fn test_tower_stat_tables() {
    assert_eq!(TowerType::Basic.cost(), 50);
    assert_eq!(TowerType::Sniper.cost(), 100);
    assert_eq!(TowerType::Splash.cost(), 75);
    assert_eq!(TowerType::Slow.cost(), 60);

    assert_eq!(TowerType::Basic.range(), 3000);
    assert_eq!(TowerType::Sniper.range(), 6000);
    assert_eq!(TowerType::Splash.range(), 2500);
    assert_eq!(TowerType::Slow.range(), 3500);

    assert_eq!(TowerType::Basic.damage(), 10);
    assert_eq!(TowerType::Sniper.damage(), 50);
    assert_eq!(TowerType::Splash.damage(), 15);
    assert_eq!(TowerType::Slow.damage(), 5);

    assert_eq!(TowerType::Basic.fire_rate(), 1000);
    assert_eq!(TowerType::Sniper.fire_rate(), 300);
    assert_eq!(TowerType::Splash.fire_rate(), 800);
    assert_eq!(TowerType::Slow.fire_rate(), 2000);

    assert_eq!(TowerType::Basic.fire_period(), 1000);
    assert_eq!(TowerType::Sniper.fire_period(), 3333);
    assert_eq!(TowerType::Splash.fire_period(), 1250);
    assert_eq!(TowerType::Slow.fire_period(), 500);

    assert_eq!(TowerType::Basic.projectile_speed(), 300000);
    assert_eq!(TowerType::Splash.splash_radius(), 1500);
    assert_eq!(TowerType::Basic.splash_radius(), 0);
}

#[test]
fn test_tower_cooldown_cycle() {
    let mut t = Tower::new(7, TowerType::Basic, Position::new(2, 3));
    assert!(t.can_shoot());
    t.shoot();
    assert_eq!(t.cooldown_remaining, 1000);
    assert!(!t.can_shoot());
    t.update(400);
    assert_eq!(t.cooldown_remaining, 600);
    t.update(900);
    assert_eq!(t.cooldown_remaining, 0);
    assert!(t.can_shoot());
}

#[test]
fn test_tower_world_position_is_cell_center() {
    let t = Tower::new(0, TowerType::Sniper, Position::new(5, 5));
    assert_eq!(t.world_position(), (220000, 220000));
}

#[test]
fn test_distance_is_scaled_euclidean() {
    // A 3-4-5 triangle: the distance comes back in thousandths of a cell.
    let a = Position::new(0, 0);
    let b = Position::new(3, 4);
    assert_eq!(a.distance(&b), 5000);
    assert_eq!(a.distance(&a), 0);
    // Floored: sqrt(2) cells is 1414 thousandths.
    assert_eq!(a.distance(&Position::new(1, 1)), 1414);
}

#[test]
fn test_grid_defaults_and_bounds() {
    let mut g = Grid::new(4, 3);
    assert!(g.is_walkable(&Position::new(0, 0)));
    assert!(g.is_walkable(&Position::new(3, 2)));
    assert!(!g.is_walkable(&Position::new(4, 0)));
    assert!(!g.is_walkable(&Position::new(0, 3)));
    assert!(!g.is_walkable(&Position::new(-1, 0)));
    // Out-of-bounds writes are ignored.
    g.set_walkable(&Position::new(9, 9), false);
    assert!(!g.is_walkable(&Position::new(9, 9)));
    g.set_walkable(&Position::new(1, 1), false);
    assert!(!g.is_walkable(&Position::new(1, 1)));
    g.set_walkable(&Position::new(1, 1), true);
    assert!(g.is_walkable(&Position::new(1, 1)));
}

#[test]
fn test_enemy_spawns_at_cell_center() {
    let grid = Grid::new(10, 10);
    let e = Enemy::new(0, Position::new(0, 0), Position::new(5, 0), &grid).unwrap();
    assert_eq!(e.x, 20000);
    assert_eq!(e.y, 20000);
    assert_eq!(e.health, 100);
    assert_eq!(e.max_health, 100);
    assert_eq!(e.speed, 50000);
    assert_eq!(e.path.len(), 2);
    assert_eq!(e.current_waypoint, 0);
}

#[test]
fn test_enemy_new_fails_without_route() {
    let mut grid = Grid::new(10, 10);
    for y in 0..10 {
        grid.set_walkable(&Position::new(3, y), false);
    }
    assert!(Enemy::new(0, Position::new(0, 0), Position::new(9, 0), &grid).is_none());
}

#[test]
fn test_enemy_walks_toward_waypoint() {
    let grid = Grid::new(10, 10);
    let mut e = Enemy::new(0, Position::new(0, 0), Position::new(5, 0), &grid).unwrap();
    // First tick: the enemy is exactly on its first waypoint's center,
    // so it advances the index without moving.
    assert!(e.update(1000));
    assert_eq!(e.current_waypoint, 1);
    assert_eq!(e.x, 20000);
    // Second tick: one second at 50000 units/s straight toward (5,0).
    assert!(e.update(1000));
    assert_eq!(e.x, 70000);
    assert_eq!(e.y, 20000);
}

#[test]
fn test_slow_halves_speed_until_it_expires() {
    let grid = Grid::new(10, 10);
    let mut e = Enemy::new(0, Position::new(0, 0), Position::new(5, 0), &grid).unwrap();
    assert!(e.update(1000)); // advance onto the far waypoint
    e.apply_slow(2000, 500);
    assert!(e.update(1000));
    // Half speed: 25000 units instead of 50000.
    assert_eq!(e.x, 45000);
    assert_eq!(e.slow_duration, 1000);
    assert_eq!(e.slow_multiplier, 500);
    assert!(e.update(1000));
    // The slow expired exactly now; this tick already moves at full speed.
    assert_eq!(e.slow_duration, 0);
    assert_eq!(e.slow_multiplier, 1000);
    assert_eq!(e.x, 95000);
}

#[test]
fn test_projectile_advances_and_snaps() {
    let mut p = Projectile::new(0, TowerType::Basic, 0, 0, 9, 100000, 0);
    assert_eq!(p.speed, 300000);
    assert_eq!(p.damage, 10);
    assert_eq!(p.lifetime, 5000);
    // 100 ms at 300000 units/s: 30000 units along +x.
    assert!(p.update(100, None));
    assert_eq!(p.x, 30000);
    assert_eq!(p.y, 0);
    assert_eq!(p.lifetime, 4900);
    assert!(!p.has_hit());
    // A step that would overshoot snaps onto the aim point and ends the flight.
    assert!(!p.update(1000, None));
    assert_eq!(p.x, 100000);
    assert!(p.has_hit());
}

#[test]
fn test_projectile_homes_on_moved_target() {
    let mut p = Projectile::new(0, TowerType::Basic, 0, 0, 9, 100000, 0);
    assert!(p.update(100, Some((0, 100000))));
    // The aim point moved to (0, 100000): flight turns with it.
    assert_eq!(p.target_x, 0);
    assert_eq!(p.target_y, 100000);
    assert_eq!(p.x, 0);
    assert_eq!(p.y, 30000);
}

#[test]
fn test_muzzle_flash_decays() {
    let mut f = MuzzleFlash::new(5, 6, TowerType::Slow);
    assert_eq!(f.lifetime, 100);
    assert_eq!(f.alpha(), 1000);
    assert!(f.update(40));
    assert_eq!(f.lifetime, 60);
    assert_eq!(f.alpha(), 600);
    assert!(!f.update(60));
    assert_eq!(f.lifetime, 0);
    assert_eq!(f.alpha(), 0);
}

#[test]
fn test_explosion_ring_expands() {
    let mut x = ExplosionEffect::new(1, 2, 1500);
    assert_eq!(x.max_radius, 60000);
    assert_eq!(x.radius, 0);
    assert!(x.update(100));
    // One third of the lifetime elapsed: one third of the radius.
    assert_eq!(x.radius, 20000);
    assert_eq!(x.alpha(), 666);
    assert!(x.update(100));
    assert_eq!(x.radius, 40000);
    assert!(!x.update(100));
    assert_eq!(x.radius, 60000);
}

#[test]
fn test_recalculate_path_keeps_stale_path_when_cut_off() {
    let mut grid = Grid::new(10, 10);
    let mut e = Enemy::new(0, Position::new(0, 5), Position::new(9, 5), &grid).unwrap();
    let old_path = e.path.clone();
    // Wall the goal off completely, then ask for a reroute: the enemy
    // keeps its stale path and walks on (a missing path is not fatal).
    for y in 0..10 {
        grid.set_walkable(&Position::new(5, y), false);
    }
    e.recalculate_path(&grid, Position::new(9, 5));
    assert_eq!(e.path, old_path);
}
