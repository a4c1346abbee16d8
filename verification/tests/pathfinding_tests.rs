use tower_defense_core::grid::Grid;
use tower_defense_core::position::Position;
use tower_defense_core::pathfinding::find_path;
use tower_defense_core::waypoints::{find_waypoints, simplify_path};

#[test]
fn test_straight_path() {
    let grid = Grid::new(10, 10);
    let start = Position::new(0, 0);
    let goal = Position::new(5, 0);

    let path = find_path(&grid, start, goal).unwrap();
    assert_eq!(path.len(), 6); // 0,0 -> 1,0 -> 2,0 -> 3,0 -> 4,0 -> 5,0
    assert_eq!(path[0], start);
    assert_eq!(path[5], goal);
}

#[test]
fn test_diagonal_path() {
    let grid = Grid::new(10, 10);
    let start = Position::new(0, 0);
    let goal = Position::new(3, 3);

    let path = find_path(&grid, start, goal).unwrap();
    assert!(path.len() >= 7); // Manhattan path length
    assert_eq!(path[0], start);
    assert_eq!(*path.last().unwrap(), goal);
}

#[test]
fn test_path_around_obstacle() {
    let mut grid = Grid::new(10, 10);

    // Create a wall
    grid.set_walkable(&Position::new(2, 0), false);
    grid.set_walkable(&Position::new(2, 1), false);
    grid.set_walkable(&Position::new(2, 2), false);

    let start = Position::new(0, 1);
    let goal = Position::new(4, 1);

    let path = find_path(&grid, start, goal).unwrap();

    // Path should go around the wall
    assert!(path.len() > 5); // Longer than straight path
    assert_eq!(path[0], start);
    assert_eq!(*path.last().unwrap(), goal);

    // Verify path doesn't go through blocked cells
    for pos in &path {
        assert!(grid.is_walkable(pos), "Path goes through blocked cell: {:?}", pos);
    }
}

#[test]
fn test_no_path_completely_blocked() {
    let mut grid = Grid::new(10, 10);

    // Create a complete wall blocking the path
    for y in 0..10 {
        grid.set_walkable(&Position::new(5, y), false);
    }

    let start = Position::new(0, 5);
    let goal = Position::new(9, 5);

    let path = find_path(&grid, start, goal);
    assert!(path.is_none());
}

#[test]
fn test_start_blocked() {
    let mut grid = Grid::new(10, 10);
    grid.set_walkable(&Position::new(0, 0), false);

    let start = Position::new(0, 0);
    let goal = Position::new(5, 5);

    let path = find_path(&grid, start, goal);
    assert!(path.is_none());
}

#[test]
fn test_goal_blocked() {
    let mut grid = Grid::new(10, 10);
    grid.set_walkable(&Position::new(5, 5), false);

    let start = Position::new(0, 0);
    let goal = Position::new(5, 5);

    let path = find_path(&grid, start, goal);
    assert!(path.is_none());
}

#[test]
fn test_waypoints_straight_line() {
    let grid = Grid::new(10, 10);
    let start = Position::new(0, 0);
    let goal = Position::new(5, 0);

    let waypoints = find_waypoints(&grid, start, goal).unwrap();

    // Straight line should only have start and end
    assert_eq!(waypoints.len(), 2);
    assert_eq!(waypoints[0], start);
    assert_eq!(waypoints[1], goal);
}

#[test]
fn test_waypoints_around_corner() {
    let mut grid = Grid::new(10, 10);

    // Create an obstacle forcing a corner
    grid.set_walkable(&Position::new(2, 1), false);
    grid.set_walkable(&Position::new(2, 2), false);

    let start = Position::new(0, 2);
    let goal = Position::new(4, 2);

    let waypoints = find_waypoints(&grid, start, goal).unwrap();

    // Should have waypoints at direction changes
    assert!(waypoints.len() >= 2);
    assert_eq!(waypoints[0], start);
    assert_eq!(*waypoints.last().unwrap(), goal);
}

#[test]
fn test_heuristic_manhattan() {
    let pos1 = Position::new(0, 0);
    let pos2 = Position::new(3, 4);

    assert_eq!(pos1.manhattan_distance(&pos2), 7);
}

#[test]
fn test_path_length_is_manhattan_plus_one_on_empty_grid() {
    let grid = Grid::new(12, 12);
    let cases = [
        ((0, 0), (11, 0)),
        ((0, 0), (0, 11)),
        ((2, 3), (9, 10)),
        ((7, 7), (7, 7)),
        ((10, 1), (1, 10)),
    ];
    for ((sx, sy), (gx, gy)) in cases {
        let start = Position::new(sx, sy);
        let goal = Position::new(gx, gy);
        let path = find_path(&grid, start, goal).unwrap();
        let expected = start.manhattan_distance(&goal) + 1;
        assert_eq!(path.len() as i64, expected);
    }
}

#[test]
fn test_path_single_cell() {
    let grid = Grid::new(3, 3);
    let p = Position::new(1, 1);
    let path = find_path(&grid, p, p).unwrap();
    assert_eq!(path.len(), 1);
    assert_eq!(path[0], p);
}

#[test]
fn test_path_out_of_bounds_endpoints() {
    let grid = Grid::new(4, 4);
    assert!(find_path(&grid, Position::new(-1, 0), Position::new(2, 2)).is_none());
    assert!(find_path(&grid, Position::new(0, 0), Position::new(4, 0)).is_none());
}

#[test]
fn test_simplify_single_turn() {
    // An L-shaped path has exactly one turn: start, corner, goal remain.
    let path = vec![
        Position::new(0, 0),
        Position::new(1, 0),
        Position::new(2, 0),
        Position::new(2, 1),
        Position::new(2, 2),
    ];
    let w = simplify_path(&path);
    assert_eq!(w.len(), 3);
    assert_eq!(w[0], Position::new(0, 0));
    assert_eq!(w[1], Position::new(2, 0));
    assert_eq!(w[2], Position::new(2, 2));
}

#[test]
fn test_simplify_keeps_two_point_path() {
    let path = vec![Position::new(3, 3), Position::new(3, 4)];
    let w = simplify_path(&path);
    assert_eq!(w, path);
}

#[test]
fn test_world_round_trip() {
    // The cell containing a cell's center is that cell, negatives included.
    let cases = [(0, 0), (3, 4), (-2, -7), (19, 7), (-1, 0)];
    for (x, y) in cases {
        let p = Position::new(x, y);
        let c = p.world_center();
        assert_eq!(Position::from_world(c.0, c.1), p);
    }
}

#[test]
fn test_from_world_floors_toward_negative() {
    // Just left of the origin lies cell -1, not cell 0.
    assert_eq!(Position::from_world(-1, -1), Position::new(-1, -1));
    assert_eq!(Position::from_world(39999, 39999), Position::new(0, 0));
    assert_eq!(Position::from_world(40000, 0), Position::new(1, 0));
}

#[test]
fn test_neighbors_enumeration() {
    let p = Position::new(4, 5);
    let ns = p.neighbors();
    assert_eq!(ns.len(), 4);
    assert!(ns.contains(&Position::new(5, 5)));
    assert!(ns.contains(&Position::new(3, 5)));
    assert!(ns.contains(&Position::new(4, 6)));
    assert!(ns.contains(&Position::new(4, 4)));
}
