//! Waypoint simplification of grid paths.
//!
//! A full step-by-step path is compressed to its turn points: the first
//! cell, every interior cell where the direction changes, and the last
//! cell. The compression is lossless with respect to turns; collinear
//! runs collapse to their endpoints.

use vstd::prelude::*;
use crate::grid::Grid;
use crate::position::{Position, adjacent, manhattan};
use crate::pathfinding::{find_path, path_ok, reachable, no_shorter, lemma_path_manhattan_suffix};

verus! {

/// Direction vector of one step of a path.
pub open spec fn step_dir(a: Position, b: Position) -> (int, int) {
    (b.x - a.x, b.y - a.y)
}

/// Whether the incoming and outgoing directions differ at `b`.
pub open spec fn is_turn(a: Position, b: Position, c: Position) -> bool {
    step_dir(a, b) != step_dir(b, c)
}

/// The interior turn points of `p` among indices `1 .. i`, in order.
pub open spec fn turns_upto(p: Seq<Position>, i: int) -> Seq<Position>
    decreases i,
{
    if i <= 1 {
        Seq::empty()
    } else {
        turns_upto(p, i - 1) + if is_turn(p[i - 2], p[i - 1], p[i]) {
            seq![p[i - 1]]
        } else {
            Seq::empty()
        }
    }
}

/// The waypoint compression of a path: its first cell, every interior
/// cell where the direction changes, and its last cell. A path of at
/// most two cells is left unchanged.
pub open spec fn waypoints_of(p: Seq<Position>) -> Seq<Position> {
    if p.len() <= 1 {
        p
    } else {
        seq![p[0]] + turns_upto(p, p.len() - 1) + seq![p[p.len() - 1]]
    }
}

/// Every turn point among indices `1 .. i` is an interior cell of `p`.
proof fn lemma_turns_upto_elems(p: Seq<Position>, i: int)
    requires
        i <= p.len() - 1,
    ensures
        forall|j: int| 0 <= j < turns_upto(p, i).len() ==> (exists|k: int|
            1 <= k < i && p[k] == #[trigger] turns_upto(p, i)[j]),
    decreases i,
{
    if i > 1 {
        lemma_turns_upto_elems(p, i - 1);
        assert forall|j: int| 0 <= j < turns_upto(p, i).len() implies (exists|k: int|
            1 <= k < i && p[k] == #[trigger] turns_upto(p, i)[j]) by {
            if j < turns_upto(p, i - 1).len() {
                assert(turns_upto(p, i)[j] == turns_upto(p, i - 1)[j]);
                let k = choose|k: int| 1 <= k < i - 1 && p[k] == turns_upto(p, i - 1)[j];
                assert(p[k] == turns_upto(p, i)[j]);
            } else {
                assert(turns_upto(p, i)[j] == p[i - 1]);
            }
        }
    }
}

/// Shape of a simplified path: it starts and ends where the full path
/// does, every cell of it is a cell of the full path, and so each cell
/// is walkable.
pub proof fn lemma_waypoints_shape(g: Grid, s: Position, t: Position, p: Seq<Position>)
    requires
        path_ok(g, s, t, p),
    ensures
        waypoints_of(p).len() >= 1,
        waypoints_of(p)[0] == s,
        waypoints_of(p)[waypoints_of(p).len() - 1] == t,
        forall|i: int| 0 <= i < waypoints_of(p).len() ==> g.walkable(#[trigger] waypoints_of(p)[i]),
{
    let w = waypoints_of(p);
    if p.len() <= 1 {
    } else {
        lemma_turns_upto_elems(p, p.len() - 1);
        let tu = turns_upto(p, p.len() - 1);
        assert(w[0] == p[0]);
        assert(w[w.len() - 1] == p[p.len() - 1]);
        assert forall|i: int| 0 <= i < w.len() implies g.walkable(#[trigger] w[i]) by {
            if 1 <= i < w.len() - 1 {
                assert(w[i] == tu[i - 1]);
                let k = choose|k: int| 1 <= k < p.len() - 1 && p[k] == tu[i - 1];
                assert(g.walkable(p[k]));
            }
        }
    }
}

/// A path that never turns has no interior turn points.
proof fn lemma_turns_upto_straight(p: Seq<Position>, i: int)
    requires
        i <= p.len() - 1,
        forall|j: int| 1 <= j < p.len() - 1 ==> !is_turn(p[j - 1], #[trigger] p[j], p[j + 1]),
    ensures
        turns_upto(p, i) == Seq::<Position>::empty(),
    decreases i,
{
    if i > 1 {
        lemma_turns_upto_straight(p, i - 1);
        assert(!is_turn(p[i - 2], p[i - 1], p[i]));
        assert(turns_upto(p, i) =~= Seq::<Position>::empty());
    }
}

/// A straight-line path simplifies to exactly its two endpoints.
pub proof fn lemma_waypoints_straight(p: Seq<Position>)
    requires
        p.len() >= 2,
        forall|j: int| 1 <= j < p.len() - 1 ==> !is_turn(p[j - 1], #[trigger] p[j], p[j + 1]),
    ensures
        waypoints_of(p) == seq![p[0], p[p.len() - 1]],
{
    lemma_turns_upto_straight(p, p.len() - 1);
    assert(waypoints_of(p) =~= seq![p[0], p[p.len() - 1]]);
}

/// With exactly one turn, at index `k`, the turn points up to `i` are
/// empty before the turn is passed and exactly the corner afterwards.
proof fn lemma_turns_upto_single(p: Seq<Position>, k: int, i: int)
    requires
        1 <= k < p.len() - 1,
        is_turn(p[k - 1], p[k], p[k + 1]),
        forall|j: int|
            1 <= j < p.len() - 1 && j != k ==> !is_turn(p[j - 1], #[trigger] p[j], p[j + 1]),
        i <= p.len() - 1,
    ensures
        turns_upto(p, i) == if i > k {
            seq![p[k]]
        } else {
            Seq::<Position>::empty()
        },
    decreases i,
{
    if i > 1 {
        lemma_turns_upto_single(p, k, i - 1);
        if i - 1 == k {
            assert(turns_upto(p, i) =~= seq![p[k]]);
        } else {
            assert(!is_turn(p[i - 2], p[i - 1], p[i]));
            if i > k {
                assert(turns_upto(p, i) =~= seq![p[k]]);
            } else {
                assert(turns_upto(p, i) =~= Seq::<Position>::empty());
            }
        }
    }
}

/// A path with exactly one turn simplifies to start, corner, goal.
pub proof fn lemma_waypoints_single_turn(p: Seq<Position>, k: int)
    requires
        p.len() >= 3,
        1 <= k < p.len() - 1,
        is_turn(p[k - 1], p[k], p[k + 1]),
        forall|j: int|
            1 <= j < p.len() - 1 && j != k ==> !is_turn(p[j - 1], #[trigger] p[j], p[j + 1]),
    ensures
        waypoints_of(p) == seq![p[0], p[k], p[p.len() - 1]],
{
    lemma_turns_upto_single(p, k, p.len() - 1);
    assert(waypoints_of(p) =~= seq![p[0], p[k], p[p.len() - 1]]);
}

/// Lower bound on path length: any walkable 4-connected path from `s`
/// to `t` contains at least `manhattan(s, t) + 1` cells. Together with
/// `find_path`'s contract this bounds every returned path from below.
pub proof fn lemma_path_len_lower_bound(g: Grid, s: Position, t: Position, p: Seq<Position>)
    requires
        path_ok(g, s, t, p),
    ensures
        p.len() >= manhattan(s, t) + 1,
{
    lemma_path_manhattan_suffix(g, s, t, p, 0);
}

/// Axis-aligned staircase between two cells: all x steps first, then
/// all y steps. On an obstacle-free grid it realizes the Manhattan
/// distance exactly.
pub open spec fn straight_path(s: Position, t: Position) -> Seq<Position> {
    let dx = crate::position::abs_val(t.x - s.x);
    let dy = crate::position::abs_val(t.y - s.y);
    Seq::new(
        (dx + dy + 1) as nat,
        |i: int|
            if i <= dx {
                Position {
                    x: (if t.x >= s.x {
                        s.x + i
                    } else {
                        s.x - i
                    }) as i32,
                    y: s.y,
                }
            } else {
                Position {
                    x: t.x,
                    y: (if t.y >= s.y {
                        s.y + (i - dx)
                    } else {
                        s.y - (i - dx)
                    }) as i32,
                }
            },
    )
}

/// On a grid whose every in-bounds cell is walkable, the staircase path
/// is a valid walkable path of exactly `manhattan(s, t) + 1` cells, so
/// any two in-bounds cells are reachable.
#[verifier::rlimit(100)]
pub proof fn lemma_clear_grid_manhattan_path(g: Grid, s: Position, t: Position)
    requires
        forall|p: Position| #[trigger] g.walkable(p) <==> g.in_bounds(p),
        g.in_bounds(s),
        g.in_bounds(t),
    ensures
        path_ok(g, s, t, straight_path(s, t)),
        straight_path(s, t).len() == manhattan(s, t) + 1,
        reachable(g, s, t),
{
    let q = straight_path(s, t);
    let dx = crate::position::abs_val(t.x - s.x);
    let dy = crate::position::abs_val(t.y - s.y);
    assert forall|i: int| 0 <= i < q.len() implies g.walkable(#[trigger] q[i]) by {
        assert(g.in_bounds(q[i]));
    }
    assert forall|i: int| 0 <= i < q.len() - 1 implies adjacent(#[trigger] q[i], q[i + 1]) by {
        assert(manhattan(q[i], q[i + 1]) == 1);
    }
    assert(q[0] == s);
    assert(q[q.len() - 1] == t);
    assert(path_ok(g, s, t, q));
}

/// On an obstacle-free grid the minimum-step guarantee pins the length
/// exactly: a valid path than which no walkable path is shorter — as
/// `find_path` returns — has `manhattan(s, t) + 1` cells.
pub proof fn lemma_clear_grid_shortest(g: Grid, s: Position, t: Position, p: Seq<Position>)
    requires
        forall|q: Position| #[trigger] g.walkable(q) <==> g.in_bounds(q),
        g.in_bounds(s),
        g.in_bounds(t),
        path_ok(g, s, t, p),
        no_shorter(g, s, t, p.len() - 1),
    ensures
        p.len() == manhattan(s, t) + 1,
{
    lemma_path_len_lower_bound(g, s, t, p);
    lemma_clear_grid_manhattan_path(g, s, t);
    assert(straight_path(s, t).len() >= p.len()) by {
        reveal(crate::pathfinding::no_shorter);
    }
}

/// Collapses collinear runs of a path to their endpoints, keeping the
/// first cell, the last cell, and every interior turn point.
pub fn simplify_path(path: &Vec<Position>) -> (w: Vec<Position>)
    requires
        path@.len() >= 1,
    ensures
        w@ == waypoints_of(path@),
{
    if path.len() <= 2 {
        let mut w: Vec<Position> = Vec::new();
        let mut i: usize = 0;
        while i < path.len()
            invariant
                0 <= i <= path@.len(),
                w@ == path@.subrange(0, i as int),
            decreases path@.len() - i,
        {
            w.push(path[i]);
            i = i + 1;
        }
        proof {
            assert(w@ =~= path@);
            if path@.len() == 2 {
                assert(waypoints_of(path@) =~= path@);
            }
        }
        return w;
    }
    let mut w: Vec<Position> = Vec::new();
    w.push(path[0]);
    let mut i: usize = 1;
    while i < path.len() - 1
        invariant
            path@.len() >= 3,
            1 <= i <= path@.len() - 1,
            w@ == seq![path@[0]] + turns_upto(path@, i as int),
        decreases path@.len() - 1 - i,
    {
        let prev = path[i - 1];
        let cur = path[i];
        let next = path[i + 1];
        let d1x = cur.x as i64 - prev.x as i64;
        let d1y = cur.y as i64 - prev.y as i64;
        let d2x = next.x as i64 - cur.x as i64;
        let d2y = next.y as i64 - cur.y as i64;
        if d1x != d2x || d1y != d2y {
            w.push(cur);
            proof {
                assert(is_turn(path@[i - 1], path@[i as int], path@[i + 1]));
            }
        } else {
            proof {
                assert(!is_turn(path@[i - 1], path@[i as int], path@[i + 1]));
            }
        }
        i = i + 1;
    }
    w.push(path[path.len() - 1]);
    proof {
        assert(w@ =~= waypoints_of(path@));
    }
    w
}

/// Pathfinding with waypoint compression: finds the same shortest path
/// as `find_path` and returns its turn-point simplification, so the
/// result exists exactly when a walkable route does.
pub fn find_waypoints(grid: &Grid, start: Position, goal: Position) -> (r: Option<Vec<Position>>)
    ensures
        r.is_some() <==> reachable(*grid, start, goal),
        r matches Some(w) ==> exists|full: Seq<Position>|
            #[trigger] path_ok(*grid, start, goal, full) && no_shorter(
                *grid,
                start,
                goal,
                full.len() - 1,
            ) && w@ == waypoints_of(full),
{
    match find_path(grid, start, goal) {
        Some(p) => {
            let w = simplify_path(&p);
            proof {
                assert(path_ok(*grid, start, goal, p@) && no_shorter(
                    *grid,
                    start,
                    goal,
                    p@.len() - 1,
                ) && w@ == waypoints_of(p@));
            }
            Some(w)
        },
        None => None,
    }
}

} // verus!
