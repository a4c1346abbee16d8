use tower_defense_core::grid::Grid;
use tower_defense_core::position::Position;
use tower_defense_core::pathfinding::find_path;
use tower_defense_core::tower::TowerType;
use tower_defense_core::enemy::Enemy;
use tower_defense_core::game::GameState;
use tower_defense_core::simulation::Game;

fn empty_state(width: i32, height: i32, spawn: Position, goal: Position) -> GameState {
    GameState {
        grid: Grid::new(width, height),
        towers: Vec::new(),
        enemies: Vec::new(),
        spawn_point: spawn,
        goal_point: goal,
        next_tower_id: 0,
        next_enemy_id: 0,
        gold: 200,
        health: 20,
        paused: false,
    }
}

fn enemy_at(id: u64, x: i64, y: i64) -> Enemy {
    Enemy {
        id,
        x,
        y,
        path: Vec::new(),
        current_waypoint: 0,
        speed: 50000,
        health: 100,
        max_health: 100,
        slow_duration: 0,
        slow_multiplier: 1000,
    }
}

#[test]
fn test_place_tower_success_deducts_gold_and_blocks_cell() {
    let mut s = GameState::new();
    let pos = Position::new(5, 5);
    assert!(s.place_tower(TowerType::Basic, pos));
    assert_eq!(s.gold, 150);
    assert_eq!(s.towers.len(), 1);
    assert_eq!(s.towers[0].id, 0);
    assert_eq!(s.next_tower_id, 1);
    assert!(!s.grid.is_walkable(&pos));
}

#[test]
fn test_place_tower_rejected_on_occupied_cell() {
    let mut s = GameState::new();
    let pos = Position::new(5, 5);
    assert!(s.place_tower(TowerType::Basic, pos));
    let gold_before = s.gold;
    let towers_before = s.towers.len();
    // The cell is now occupied (unwalkable): placement must change nothing.
    assert!(!s.place_tower(TowerType::Sniper, pos));
    assert_eq!(s.gold, gold_before);
    assert_eq!(s.towers.len(), towers_before);
    assert_eq!(s.next_tower_id, 1);
    assert!(!s.grid.is_walkable(&pos));
}

#[test]
fn test_place_tower_rejected_out_of_bounds() {
    let mut s = GameState::new();
    assert!(!s.place_tower(TowerType::Basic, Position::new(-1, 3)));
    assert!(!s.place_tower(TowerType::Basic, Position::new(20, 3)));
    assert_eq!(s.gold, 200);
    assert_eq!(s.towers.len(), 0);
}

#[test]
fn test_place_tower_rejected_without_gold() {
    let mut s = GameState::new();
    s.gold = 40;
    assert!(!s.place_tower(TowerType::Basic, Position::new(4, 4)));
    assert_eq!(s.gold, 40);
    assert_eq!(s.towers.len(), 0);
    assert!(s.grid.is_walkable(&Position::new(4, 4)));
}

#[test]
fn test_detour_scenario() {
    // 10x10 empty grid, spawn (0,5), goal (9,5); three towers wall the
    // middle of the straight route.
    let mut s = empty_state(10, 10, Position::new(0, 5), Position::new(9, 5));
    assert!(s.place_tower(TowerType::Basic, Position::new(5, 4)));
    assert!(s.place_tower(TowerType::Basic, Position::new(5, 5)));
    assert!(s.place_tower(TowerType::Basic, Position::new(5, 6)));

    let path = find_path(&s.grid, s.spawn_point, s.goal_point).unwrap();
    assert!(path.len() >= 11);
    let blocked = [Position::new(5, 4), Position::new(5, 5), Position::new(5, 6)];
    for pos in &path {
        assert!(!blocked.contains(pos));
        assert!(s.grid.is_walkable(pos));
    }

    assert!(s.spawn_enemy());
    assert_eq!(s.enemies.len(), 1);
    assert_eq!(s.enemies[0].path[0], s.spawn_point);
    assert_eq!(*s.enemies[0].path.last().unwrap(), s.goal_point);
}

#[test]
fn test_spawn_fails_across_full_wall() {
    // Fully walling column x=5 disconnects spawn from goal: spawning
    // fails cleanly, with no enemy, no id and no gold change.
    let mut s = empty_state(10, 10, Position::new(0, 5), Position::new(9, 5));
    for y in 0..10 {
        s.grid.set_walkable(&Position::new(5, y), false);
    }
    assert!(!s.spawn_enemy());
    assert_eq!(s.enemies.len(), 0);
    assert_eq!(s.next_enemy_id, 0);
    assert_eq!(s.gold, 200);
}

#[test]
fn test_spawn_consumes_id_on_success_only() {
    let mut s = GameState::new();
    assert!(s.spawn_enemy());
    assert!(s.spawn_enemy());
    assert_eq!(s.next_enemy_id, 2);
    assert_eq!(s.enemies[0].id, 0);
    assert_eq!(s.enemies[1].id, 1);
}

#[test]
fn test_damage_clamps_at_zero() {
    let mut e = enemy_at(0, 100000, 100000);
    e.take_damage(30);
    assert_eq!(e.health, 70);
    e.take_damage(200);
    assert_eq!(e.health, 0);
    assert!(!e.is_alive());
}

#[test]
fn test_kill_awards_gold_exactly_once() {
    let mut game = Game::new();
    game.state.enemies.push(enemy_at(0, 100000, 100000));
    game.state.next_enemy_id = 1;
    let gold0 = game.state.gold;

    // A non-lethal hit leaves the enemy in place and the gold untouched.
    game.apply_damage(0, 30, TowerType::Basic, 100000, 100000);
    assert_eq!(game.state.enemies.len(), 1);
    assert_eq!(game.state.enemies[0].health, 70);
    assert_eq!(game.state.gold, gold0);

    // The lethal hit removes the enemy and pays the reward exactly once.
    game.apply_damage(0, 100, TowerType::Basic, 100000, 100000);
    assert_eq!(game.state.enemies.len(), 0);
    assert_eq!(game.state.gold, gold0 + 10);

    // A further hit against the vanished id changes nothing.
    game.apply_damage(0, 100, TowerType::Basic, 100000, 100000);
    assert_eq!(game.state.gold, gold0 + 10);
}

#[test]
fn test_splash_damages_exactly_enemies_in_radius() {
    // Splash radius is 1.5 cells = 60000 world units around the impact.
    let mut game = Game::new();
    game.state.enemies.push(enemy_at(0, 100000, 100000)); // at the impact
    game.state.enemies.push(enemy_at(1, 160000, 100000)); // exactly on the rim
    game.state.enemies.push(enemy_at(2, 100000, 170000)); // outside
    game.state.next_enemy_id = 3;

    game.apply_damage(0, 15, TowerType::Splash, 100000, 100000);

    assert_eq!(game.state.enemies.len(), 3);
    assert_eq!(game.state.enemies[0].health, 85);
    assert_eq!(game.state.enemies[1].health, 85);
    assert_eq!(game.state.enemies[2].health, 100);
    // The splash hit leaves an expanding ring at the impact point.
    assert_eq!(game.explosions.len(), 1);
    assert_eq!(game.explosions[0].x, 100000);
    assert_eq!(game.explosions[0].max_radius, 60000);
}

#[test]
fn test_slow_hit_applies_timed_multiplier() {
    let mut game = Game::new();
    game.state.enemies.push(enemy_at(0, 100000, 100000));
    game.state.next_enemy_id = 1;

    game.apply_damage(0, 5, TowerType::Slow, 100000, 100000);
    assert_eq!(game.state.enemies[0].health, 95);
    assert_eq!(game.state.enemies[0].slow_duration, 2000);
    assert_eq!(game.state.enemies[0].slow_multiplier, 500);
}

#[test]
fn test_ready_tower_fires_at_enemy_in_range() {
    let mut game = Game::new();
    assert!(game.state.place_tower(TowerType::Basic, Position::new(5, 5)));
    // Tower center is (220000, 220000); put an enemy one cell away.
    game.state.enemies.push(enemy_at(0, 260000, 220000));
    game.state.next_enemy_id = 1;

    game.update_towers(16);

    assert_eq!(game.projectiles.len(), 1);
    assert_eq!(game.projectiles[0].target_id, 0);
    assert_eq!(game.projectiles[0].x, 220000);
    assert_eq!(game.projectiles[0].damage, 10);
    assert_eq!(game.muzzle_flashes.len(), 1);
    assert_eq!(game.state.towers[0].cooldown_remaining, 1000);
    assert_eq!(game.state.towers[0].target_id, Some(0));
    assert_eq!(game.next_projectile_id, 1);
}

#[test]
fn test_tower_prefers_enemy_furthest_along_path() {
    let mut game = Game::new();
    assert!(game.state.place_tower(TowerType::Basic, Position::new(5, 5)));
    let mut near_goal = enemy_at(0, 260000, 220000);
    near_goal.current_waypoint = 3;
    let behind = enemy_at(1, 180000, 220000);
    game.state.enemies.push(near_goal);
    game.state.enemies.push(behind);
    game.state.next_enemy_id = 2;

    game.update_towers(16);

    assert_eq!(game.projectiles.len(), 1);
    assert_eq!(game.projectiles[0].target_id, 0);
}

#[test]
fn test_idle_tower_gets_no_target_out_of_range() {
    let mut game = Game::new();
    assert!(game.state.place_tower(TowerType::Basic, Position::new(5, 5)));
    // Basic range is 3 cells = 120000 units; this enemy is 5 cells away.
    game.state.enemies.push(enemy_at(0, 420000, 220000));
    game.state.next_enemy_id = 1;

    game.update_towers(16);

    assert_eq!(game.projectiles.len(), 0);
    assert_eq!(game.state.towers[0].target_id, None);
}

#[test]
fn test_projectile_hit_resolves_damage() {
    let mut game = Game::new();
    game.state.enemies.push(enemy_at(3, 100000, 100000));
    game.state.next_enemy_id = 4;
    game.projectiles.push(tower_defense_core::projectile::Projectile::new(
        0,
        TowerType::Basic,
        98000,
        100000,
        3,
        98000,
        100000,
    ));
    game.next_projectile_id = 1;

    game.update_projectiles(16);

    assert_eq!(game.projectiles.len(), 0);
    assert_eq!(game.state.enemies[0].health, 90);
}

#[test]
fn test_expired_projectile_despawns_without_damage() {
    let mut game = Game::new();
    game.state.enemies.push(enemy_at(3, 100000, 100000));
    game.state.next_enemy_id = 4;
    let mut p = tower_defense_core::projectile::Projectile::new(
        0,
        TowerType::Basic,
        900000,
        900000,
        3,
        100000,
        100000,
    );
    p.lifetime = 10;
    game.projectiles.push(p);
    game.next_projectile_id = 1;

    // The lifetime expires far from the target: a clean miss.
    game.update_projectiles(10);

    assert_eq!(game.projectiles.len(), 0);
    assert_eq!(game.state.enemies[0].health, 100);
}

#[test]
fn test_leaked_enemy_costs_health() {
    let mut game = Game::new();
    let mut e = enemy_at(0, 100000, 100000);
    e.path.push(Position::new(2, 2));
    e.current_waypoint = 1; // already past the end of its path
    game.state.enemies.push(e);
    game.state.next_enemy_id = 1;

    game.update_enemies(16);

    assert_eq!(game.state.enemies.len(), 0);
    assert_eq!(game.state.health, 19);
}

#[test]
fn test_paused_update_is_a_no_op() {
    let mut game = Game::new();
    assert!(game.state.place_tower(TowerType::Basic, Position::new(5, 5)));
    assert!(game.state.spawn_enemy());
    game.state.set_paused(true);
    let gold = game.state.gold;
    let ex = game.state.enemies[0].x;

    game.update(1000);

    assert_eq!(game.state.gold, gold);
    assert_eq!(game.state.enemies.len(), 1);
    assert_eq!(game.state.enemies[0].x, ex);
    game.state.toggle_paused();
    assert!(!game.state.paused);
}

#[test]
fn test_clear_all_restores_walkability() {
    let mut s = GameState::new();
    assert!(s.place_tower(TowerType::Basic, Position::new(5, 5)));
    assert!(s.place_tower(TowerType::Slow, Position::new(6, 5)));
    assert!(s.spawn_enemy());
    let gold = s.gold;

    s.clear_all();

    assert_eq!(s.towers.len(), 0);
    assert_eq!(s.enemies.len(), 0);
    assert!(s.grid.is_walkable(&Position::new(5, 5)));
    assert!(s.grid.is_walkable(&Position::new(6, 5)));
    assert_eq!(s.gold, gold);
    assert_eq!(s.next_tower_id, 2);
}

#[test]
fn test_placement_reroutes_existing_enemies() {
    let mut s = empty_state(10, 10, Position::new(0, 5), Position::new(9, 5));
    assert!(s.spawn_enemy());
    // The fresh path is the straight line: two waypoints.
    assert_eq!(s.enemies[0].path.len(), 2);
    // Block the straight route right in front of the enemy.
    assert!(s.place_tower(TowerType::Basic, Position::new(5, 5)));
    // The enemy was rerouted from its current cell and now has to turn.
    assert!(s.enemies[0].path.len() > 2);
    assert_eq!(s.enemies[0].current_waypoint, 0);
    assert_eq!(*s.enemies[0].path.last().unwrap(), s.goal_point);
}
