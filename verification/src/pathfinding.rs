//! A* pathfinding over the walkability grid.
//!
//! `find_path` returns a walkable, 4-connected, start-to-goal path
//! exactly when one exists, and a shortest one: the search is proved
//! sound (any returned path is valid), complete (`None` only when no
//! walkable route connects the endpoints), and optimal (no walkable
//! path has fewer cells than the returned one).

use vstd::prelude::*;
use vstd::set_lib::{set_int_range, lemma_int_range};
use std::collections::{HashMap, HashSet};
use crate::grid::{Grid, lemma_cell_key_injective};
use crate::position::{Position, adjacent, manhattan};

verus! {

broadcast use vstd::std_specs::hash::group_hash_axioms;

/// Node on the open list of the search: a candidate cell together with
/// its cost from the start (`g`) and its heuristic cost to the goal (`h`).
#[derive(Clone, Copy)]
struct Node {
    pos: Position,
    g: u64,
    h: u64,
}

/// `p` is a valid walkable path from `s` to `t`: nonempty, endpoints as
/// given, every cell walkable, consecutive cells 4-connected.
pub open spec fn path_ok(g: Grid, s: Position, t: Position, p: Seq<Position>) -> bool {
    &&& p.len() > 0
    &&& p[0] == s
    &&& p[p.len() - 1] == t
    &&& forall|i: int| 0 <= i < p.len() ==> g.walkable(#[trigger] p[i])
    &&& forall|i: int| 0 <= i < p.len() - 1 ==> adjacent(#[trigger] p[i], p[i + 1])
}

/// Some walkable 4-connected path leads from `s` to `t`.
pub open spec fn reachable(g: Grid, s: Position, t: Position) -> bool {
    exists|p: Seq<Position>| #[trigger] path_ok(g, s, t, p)
}

/// No walkable path from `s` to `p` has fewer than `d + 1` cells.
#[verifier::opaque]
pub open spec fn no_shorter(g: Grid, s: Position, p: Position, d: int) -> bool {
    forall|q: Seq<Position>| #[trigger] path_ok(g, s, p, q) ==> q.len() >= d + 1
}

/// Some walkable path from `s` to `p` has exactly `d + 1` cells.
#[verifier::opaque]
pub open spec fn has_path_len(g: Grid, s: Position, p: Position, d: int) -> bool {
    exists|q: Seq<Position>| #[trigger] path_ok(g, s, p, q) && q.len() == d + 1
}

/// `p` occurs as the position of some node on the open list.
spec fn in_open(open: Seq<Node>, p: Position) -> bool {
    exists|i: int| 0 <= i < open.len() && (#[trigger] open[i]).pos == p
}

/// `p` occurs on the open list with cost exactly `gv`.
spec fn in_open_g(open: Seq<Node>, p: Position, gv: u64) -> bool {
    exists|i: int| 0 <= i < open.len() && (#[trigger] open[i]).pos == p && open[i].g == gv
}

/// `p` is a walkable cell whose key has been closed.
spec fn closed_pos(g: Grid, cl: Set<u64>, p: Position) -> bool {
    g.walkable(p) && cl.contains(g.cell_key(p))
}

/// Closure of the closed set under walkable adjacency, excepting `e`:
/// every walkable neighbor of a closed cell other than `e` is closed or
/// still on the open list.
spec fn closure_except(g: Grid, open: Seq<Node>, cl: Set<u64>, e: Position) -> bool {
    forall|p: Position, q: Position|
        closed_pos(g, cl, p) && p != e && g.walkable(q) && #[trigger] adjacent(p, q)
            ==> closed_pos(g, cl, q) || in_open(open, q)
}

/// Full closure: every walkable neighbor of a closed cell is closed or open.
spec fn closure(g: Grid, open: Seq<Node>, cl: Set<u64>) -> bool {
    forall|p: Position, q: Position|
        closed_pos(g, cl, p) && g.walkable(q) && #[trigger] adjacent(p, q)
            ==> closed_pos(g, cl, q) || in_open(open, q)
}

/// Bookkeeping invariant of the search relating the open list, the
/// closed set, the tentative costs `gs` and the predecessor links `cf`;
/// `ncl` is the number of closed cells.
spec fn inv_core(
    g: Grid,
    s: Position,
    t: Position,
    open: Seq<Node>,
    cl: Set<u64>,
    gs: Map<u64, u64>,
    cf: Map<u64, Position>,
    ncl: int,
) -> bool {
    &&& g.walkable(s)
    &&& g.walkable(t)
    &&& 0 <= ncl
    &&& forall|i: int| 0 <= i < open.len() ==> g.walkable((#[trigger] open[i]).pos)
    &&& forall|i: int|
        0 <= i < open.len() ==> gs.contains_key(g.cell_key((#[trigger] open[i]).pos))
            && gs[g.cell_key(open[i].pos)] <= open[i].g && open[i].g <= ncl
            && open[i].h == manhattan(open[i].pos, t)
    &&& forall|p: Position|
        g.walkable(p) && gs.contains_key(#[trigger] g.cell_key(p)) && p != s
            ==> cf.contains_key(g.cell_key(p))
    &&& forall|p: Position|
        g.walkable(p) && cf.contains_key(#[trigger] g.cell_key(p)) ==> {
            let par = cf[g.cell_key(p)];
            &&& p != s
            &&& g.walkable(par)
            &&& adjacent(par, p)
            &&& cl.contains(g.cell_key(par))
            &&& gs.contains_key(g.cell_key(p))
            &&& gs.contains_key(g.cell_key(par))
            &&& gs[g.cell_key(par)] + 1 == gs[g.cell_key(p)]
        }
    &&& forall|p: Position|
        g.walkable(p) && gs.contains_key(#[trigger] g.cell_key(p)) ==> gs[g.cell_key(p)] <= ncl
    &&& forall|p: Position|
        g.walkable(p) && gs.contains_key(#[trigger] g.cell_key(p)) && !cl.contains(g.cell_key(p))
            ==> in_open_g(open, p, gs[g.cell_key(p)])
    &&& gs.contains_key(g.cell_key(s))
    &&& gs[g.cell_key(s)] == 0
    &&& !cl.contains(g.cell_key(t))
    &&& forall|p: Position|
        g.walkable(p) && cl.contains(#[trigger] g.cell_key(p)) ==> gs.contains_key(g.cell_key(p))
            && no_shorter(g, s, p, gs[g.cell_key(p)] as int) && has_path_len(
            g,
            s,
            p,
            gs[g.cell_key(p)] as int,
        )
}

/// Every unclosed walkable neighbor of a closed cell other than `e` has
/// been relaxed: it has a cost record at most one above its neighbor's.
spec fn relaxed_except(g: Grid, cl: Set<u64>, gs: Map<u64, u64>, e: Position) -> bool {
    forall|p: Position, q: Position|
        g.walkable(p) && cl.contains(g.cell_key(p)) && p != e && g.walkable(q)
            && #[trigger] adjacent(p, q) && !cl.contains(g.cell_key(q)) ==> gs.contains_key(
            g.cell_key(q),
        ) && gs[g.cell_key(q)] <= gs[g.cell_key(p)] + 1
}

/// Every unclosed walkable neighbor of any closed cell has been relaxed.
spec fn relaxed(g: Grid, cl: Set<u64>, gs: Map<u64, u64>) -> bool {
    forall|p: Position, q: Position|
        g.walkable(p) && cl.contains(g.cell_key(p)) && g.walkable(q) && #[trigger] adjacent(p, q)
            && !cl.contains(g.cell_key(q)) ==> gs.contains_key(g.cell_key(q)) && gs[g.cell_key(q)]
            <= gs[g.cell_key(p)] + 1
}

/// Removing a node never loses any other open position.
proof fn lemma_in_open_remove(open: Seq<Node>, j: int, q: Position)
    requires
        0 <= j < open.len(),
        in_open(open, q),
        open[j].pos != q,
    ensures
        in_open(open.remove(j), q),
{
    open.remove_ensures(j);
    let i = choose|i: int| 0 <= i < open.len() && (#[trigger] open[i]).pos == q;
    if i < j {
        assert(open.remove(j)[i].pos == q);
    } else {
        assert(open.remove(j)[i - 1].pos == q);
    }
}

/// Removing a node preserves any other exact-cost open occurrence.
proof fn lemma_in_open_g_remove(open: Seq<Node>, j: int, q: Position, gv: u64)
    requires
        0 <= j < open.len(),
        in_open_g(open, q, gv),
        open[j].pos != q,
    ensures
        in_open_g(open.remove(j), q, gv),
{
    open.remove_ensures(j);
    let i = choose|i: int|
        0 <= i < open.len() && (#[trigger] open[i]).pos == q && open[i].g == gv;
    if i < j {
        assert(open.remove(j)[i].pos == q && open.remove(j)[i].g == gv);
    } else {
        assert(open.remove(j)[i - 1].pos == q && open.remove(j)[i - 1].g == gv);
    }
}

/// Removing the node at `best`, whose cell is closed, loses no open
/// coverage: adjacency closure (full or excepting that cell), the
/// exact-cost records of unclosed cells, and the start's coverage all
/// survive the removal.
proof fn lemma_removed_repairs(
    g: Grid,
    s: Position,
    open0: Seq<Node>,
    best: int,
    cl: Set<u64>,
    gs: Map<u64, u64>,
    e: Position,
)
    requires
        0 <= best < open0.len(),
        open0[best].pos == e,
        g.walkable(e),
        cl.contains(g.cell_key(e)),
        closure_except(g, open0, cl, e),
        forall|p: Position|
            g.walkable(p) && gs.contains_key(#[trigger] g.cell_key(p)) && !cl.contains(
                g.cell_key(p),
            ) ==> in_open_g(open0, p, gs[g.cell_key(p)]),
    ensures
        closure_except(g, open0.remove(best), cl, e),
        closure(g, open0, cl) ==> closure(g, open0.remove(best), cl),
        forall|p: Position|
            g.walkable(p) && gs.contains_key(#[trigger] g.cell_key(p)) && !cl.contains(
                g.cell_key(p),
            ) ==> in_open_g(open0.remove(best), p, gs[g.cell_key(p)]),
        in_open(open0, s) && !closed_pos(g, cl, s) ==> in_open(open0.remove(best), s),
{
    assert forall|p: Position, q: Position|
        closed_pos(g, cl, p) && p != e && g.walkable(q) && #[trigger] adjacent(p, q)
            && !closed_pos(g, cl, q) implies in_open(open0.remove(best), q) by {
        assert(in_open(open0, q));
        assert(q != e);
        lemma_in_open_remove(open0, best, q);
    }
    if closure(g, open0, cl) {
        assert forall|p: Position, q: Position|
            closed_pos(g, cl, p) && g.walkable(q) && #[trigger] adjacent(p, q) && !closed_pos(
                g,
                cl,
                q,
            ) implies in_open(open0.remove(best), q) by {
            assert(in_open(open0, q));
            assert(q != e);
            lemma_in_open_remove(open0, best, q);
        }
    }
    assert forall|p: Position|
        g.walkable(p) && gs.contains_key(#[trigger] g.cell_key(p)) && !cl.contains(
            g.cell_key(p),
        ) implies in_open_g(open0.remove(best), p, gs[g.cell_key(p)]) by {
        assert(p != e);
        lemma_in_open_g_remove(open0, best, p, gs[g.cell_key(p)]);
    }
    if in_open(open0, s) && !closed_pos(g, cl, s) {
        assert(s != e);
        lemma_in_open_remove(open0, best, s);
    }
}

/// A prefix of a walkable path is a walkable path to its last cell.
pub proof fn lemma_path_prefix(g: Grid, s: Position, v: Position, q: Seq<Position>, j: int)
    requires
        path_ok(g, s, v, q),
        0 < j <= q.len(),
    ensures
        path_ok(g, s, q[j - 1], q.subrange(0, j)),
{
    let pre = q.subrange(0, j);
    assert forall|i: int| 0 <= i < pre.len() implies g.walkable(#[trigger] pre[i]) by {
        assert(pre[i] == q[i]);
    }
    assert forall|i: int| 0 <= i < pre.len() - 1 implies adjacent(#[trigger] pre[i], pre[i + 1]) by {
        assert(pre[i] == q[i] && pre[i + 1] == q[i + 1]);
    }
    assert(pre[0] == q[0]);
}

/// One 4-connected step changes the Manhattan distance to the path's
/// endpoint by at most one, so every suffix of a walkable path is at
/// least as long as that distance.
pub proof fn lemma_path_manhattan_suffix(
    g: Grid,
    s: Position,
    t: Position,
    p: Seq<Position>,
    i: int,
)
    requires
        path_ok(g, s, t, p),
        0 <= i < p.len(),
    ensures
        manhattan(p[i], t) <= p.len() - 1 - i,
    decreases p.len() - i,
{
    if i < p.len() - 1 {
        lemma_path_manhattan_suffix(g, s, t, p, i + 1);
        assert(adjacent(p[i], p[i + 1]));
    }
}

/// On any walkable path to an unclosed cell there is a first unclosed
/// cell, and its recorded cost is at most its index: the cost map never
/// overestimates along the path's closed prefix, and the step off that
/// prefix has been relaxed.
proof fn lemma_first_unclosed(
    g: Grid,
    s: Position,
    v: Position,
    cl: Set<u64>,
    gs: Map<u64, u64>,
    q: Seq<Position>,
)
    requires
        path_ok(g, s, v, q),
        !cl.contains(g.cell_key(v)),
        gs.contains_key(g.cell_key(s)),
        gs[g.cell_key(s)] == 0,
        forall|p: Position|
            g.walkable(p) && cl.contains(#[trigger] g.cell_key(p)) ==> gs.contains_key(
                g.cell_key(p),
            ) && no_shorter(g, s, p, gs[g.cell_key(p)] as int),
        forall|p: Position, q2: Position|
            g.walkable(p) && cl.contains(g.cell_key(p)) && g.walkable(q2) && #[trigger] adjacent(
                p,
                q2,
            ) && !cl.contains(g.cell_key(q2)) ==> gs.contains_key(g.cell_key(q2)) && gs[g.cell_key(
                q2,
            )] <= gs[g.cell_key(p)] + 1,
    ensures
        exists|j: int|
            0 <= j < q.len() && !cl.contains(g.cell_key(#[trigger] q[j])) && gs.contains_key(
                g.cell_key(q[j]),
            ) && gs[g.cell_key(q[j])] <= j,
{
    if !cl.contains(g.cell_key(q[0])) {
        assert(q[0] == s);
        assert(0 <= 0 < q.len() && !cl.contains(g.cell_key(q[0])) && gs.contains_key(
            g.cell_key(q[0]),
        ) && gs[g.cell_key(q[0])] <= 0);
    } else {
        lemma_first_unclosed_scan(g, s, v, cl, gs, q, 0);
    }
}

/// Scan step for `lemma_first_unclosed`: `q[k]` is closed, so the walk
/// must leave the closed region before the (unclosed) endpoint.
proof fn lemma_first_unclosed_scan(
    g: Grid,
    s: Position,
    v: Position,
    cl: Set<u64>,
    gs: Map<u64, u64>,
    q: Seq<Position>,
    k: int,
)
    requires
        path_ok(g, s, v, q),
        !cl.contains(g.cell_key(v)),
        gs.contains_key(g.cell_key(s)),
        gs[g.cell_key(s)] == 0,
        forall|p: Position|
            g.walkable(p) && cl.contains(#[trigger] g.cell_key(p)) ==> gs.contains_key(
                g.cell_key(p),
            ) && no_shorter(g, s, p, gs[g.cell_key(p)] as int),
        forall|p: Position, q2: Position|
            g.walkable(p) && cl.contains(g.cell_key(p)) && g.walkable(q2) && #[trigger] adjacent(
                p,
                q2,
            ) && !cl.contains(g.cell_key(q2)) ==> gs.contains_key(g.cell_key(q2)) && gs[g.cell_key(
                q2,
            )] <= gs[g.cell_key(p)] + 1,
        0 <= k < q.len(),
        cl.contains(g.cell_key(q[k])),
    ensures
        exists|j: int|
            0 <= j < q.len() && !cl.contains(g.cell_key(#[trigger] q[j])) && gs.contains_key(
                g.cell_key(q[j]),
            ) && gs[g.cell_key(q[j])] <= j,
    decreases q.len() - k,
{
    reveal(no_shorter);
    assert(q[k] != v || k < q.len() - 1);
    assert(k < q.len() - 1) by {
        if k == q.len() - 1 {
            assert(q[k] == v);
        }
    }
    // The closed cell's recorded cost never exceeds the prefix length.
    lemma_path_prefix(g, s, v, q, k + 1);
    let pre = q.subrange(0, k + 1);
    assert(path_ok(g, s, q[k], pre));
    assert(pre.len() >= gs[g.cell_key(q[k])] + 1);
    let nxt = q[k + 1];
    assert(adjacent(q[k], nxt));
    if cl.contains(g.cell_key(nxt)) {
        lemma_first_unclosed_scan(g, s, v, cl, gs, q, k + 1);
    } else {
        assert(gs[g.cell_key(nxt)] <= gs[g.cell_key(q[k])] + 1);
        assert(0 <= k + 1 < q.len() && !cl.contains(g.cell_key(q[k + 1])) && gs.contains_key(
            g.cell_key(q[k + 1]),
        ) && gs[g.cell_key(q[k + 1])] <= k + 1);
    }
}

/// The predecessor chain realizes each recorded cost: from any cell
/// with a cost record there is a walkable path from the start of
/// exactly that many steps.
proof fn lemma_cf_path(g: Grid, s: Position, gs: Map<u64, u64>, cf: Map<u64, Position>, p: Position)
    requires
        g.walkable(s),
        g.walkable(p),
        gs.contains_key(g.cell_key(p)),
        gs.contains_key(g.cell_key(s)),
        gs[g.cell_key(s)] == 0,
        forall|r: Position|
            g.walkable(r) && gs.contains_key(#[trigger] g.cell_key(r)) && r != s
                ==> cf.contains_key(g.cell_key(r)),
        forall|r: Position|
            g.walkable(r) && cf.contains_key(#[trigger] g.cell_key(r)) ==> {
                let par = cf[g.cell_key(r)];
                &&& r != s
                &&& g.walkable(par)
                &&& adjacent(par, r)
                &&& gs.contains_key(g.cell_key(r))
                &&& gs.contains_key(g.cell_key(par))
                &&& gs[g.cell_key(par)] + 1 == gs[g.cell_key(r)]
            },
    ensures
        has_path_len(g, s, p, gs[g.cell_key(p)] as int),
    decreases gs[g.cell_key(p)],
{
    reveal(has_path_len);
    if p == s {
        let w = seq![s];
        assert(w[0] == s && w[w.len() - 1] == s);
        assert(path_ok(g, s, s, w));
    } else {
        let par = cf[g.cell_key(p)];
        lemma_cf_path(g, s, gs, cf, par);
        let w = choose|w: Seq<Position>|
            #[trigger] path_ok(g, s, par, w) && w.len() == gs[g.cell_key(par)] + 1;
        let w2 = w.push(p);
        assert forall|i: int| 0 <= i < w2.len() implies g.walkable(#[trigger] w2[i]) by {
            if i < w.len() {
                assert(w2[i] == w[i]);
            }
        }
        assert forall|i: int| 0 <= i < w2.len() - 1 implies adjacent(
            #[trigger] w2[i],
            w2[i + 1],
        ) by {
            if i < w.len() - 1 {
                assert(w2[i] == w[i] && w2[i + 1] == w[i + 1]);
            } else {
                assert(w2[i] == w[w.len() - 1] && w2[i + 1] == p);
            }
        }
        assert(path_ok(g, s, p, w2));
    }
}

/// The node the search expands — a minimum-f node for a cell that is
/// not yet closed — carries that cell's exact recorded cost, and no
/// walkable path from the start to that cell is shorter: the heart of
/// A* optimality with an admissible, consistent heuristic.
proof fn lemma_popped_is_optimal(
    g: Grid,
    s: Position,
    t: Position,
    open: Seq<Node>,
    cl: Set<u64>,
    gs: Map<u64, u64>,
    cf: Map<u64, Position>,
    ncl: int,
    best: int,
)
    requires
        inv_core(g, s, t, open, cl, gs, cf, ncl),
        relaxed(g, cl, gs),
        0 <= best < open.len(),
        is_expansion_choice(open, best),
        !cl.contains(g.cell_key(open[best].pos)),
    ensures
        open[best].g == gs[g.cell_key(open[best].pos)],
        no_shorter(g, s, open[best].pos, open[best].g as int),
{
    reveal(no_shorter);
    reveal(is_expansion_choice);
    let n = open[best];
    let key = g.cell_key(n.pos);
    assert(n.g == gs[key]) by {
        if n.g != gs[key] {
            assert(in_open_g(open, n.pos, gs[key]));
            let w = choose|w: int|
                0 <= w < open.len() && (#[trigger] open[w]).pos == n.pos && open[w].g == gs[key];
            assert(open[w].h == manhattan(n.pos, t));
            assert(n.g + n.h <= open[w].g + open[w].h);
        }
    }
    assert forall|q: Seq<Position>| #[trigger] path_ok(g, s, n.pos, q) implies q.len() >= n.g
        + 1 by {
        if q.len() < n.g + 1 {
            lemma_first_unclosed(g, s, n.pos, cl, gs, q);
            let j = choose|j: int|
                0 <= j < q.len() && !cl.contains(g.cell_key(#[trigger] q[j])) && gs.contains_key(
                    g.cell_key(q[j]),
                ) && gs[g.cell_key(q[j])] <= j;
            assert(g.walkable(q[j]));
            assert(in_open_g(open, q[j], gs[g.cell_key(q[j])]));
            let m = choose|m: int|
                0 <= m < open.len() && (#[trigger] open[m]).pos == q[j] && open[m].g == gs[
                    g.cell_key(q[j])
                ];
            assert(open[m].h == manhattan(q[j], t));
            crate::position::lemma_manhattan_triangle(q[j], n.pos, t);
            lemma_path_manhattan_suffix(g, s, n.pos, q, j);
            assert(manhattan(q[j], n.pos) <= q.len() - 1 - j);
            assert(open[m].g + open[m].h <= j + (q.len() - 1 - j) + manhattan(n.pos, t));
            assert(open[m].g + open[m].h < n.g + n.h);
            assert(n.g + n.h <= open[m].g + open[m].h);
            assert(false);
        }
    }
}

/// Along any walkable path whose first cell is closed, closure of the
/// closed set under adjacency keeps every cell of the path closed.
proof fn lemma_path_stays_closed(
    g: Grid,
    cl: Set<u64>,
    s: Position,
    t: Position,
    p: Seq<Position>,
    i: int,
)
    requires
        path_ok(g, s, t, p),
        closed_pos(g, cl, p[0]),
        forall|a: Position, b: Position|
            closed_pos(g, cl, a) && g.walkable(b) && #[trigger] adjacent(a, b)
                ==> closed_pos(g, cl, b),
        0 <= i < p.len(),
    ensures
        closed_pos(g, cl, p[i]),
    decreases i,
{
    if i > 0 {
        lemma_path_stays_closed(g, cl, s, t, p, i - 1);
        assert(adjacent(p[i - 1], p[i]));
    }
}

/// The search's deterministic expansion choice, exactly: index `j`
/// holds a node of least f-cost `g + h`; among the f-ties its heuristic
/// is largest; and no earlier index ties it on both counts.
#[verifier::opaque]
spec fn is_expansion_choice(open: Seq<Node>, j: int) -> bool {
    &&& forall|k: int|
        0 <= k < open.len() ==> open[j].g + open[j].h <= (#[trigger] open[k]).g + open[k].h
    &&& forall|k: int|
        0 <= k < open.len() && open[j].g + open[j].h == (#[trigger] open[k]).g + open[k].h
            ==> open[k].h <= open[j].h
    &&& forall|k: int|
        0 <= k < j ==> ((#[trigger] open[k]).g + open[k].h > open[j].g + open[j].h) || open[k].h
            < open[j].h
}

/// Index of the node that the search expands next: the least f-cost
/// `g + h`, ties going to the larger heuristic, then to the earliest
/// index, so the choice is deterministic.
fn best_index(open: &Vec<Node>) -> (j: usize)
    requires
        open@.len() > 0,
    ensures
        0 <= j < open@.len(),
        is_expansion_choice(open@, j as int),
{
    let mut j: usize = 0;
    let mut i: usize = 1;
    while i < open.len()
        invariant
            1 <= i <= open@.len(),
            0 <= j < i,
            forall|k: int|
                0 <= k < i ==> open@[j as int].g + open@[j as int].h <= (#[trigger] open@[k]).g
                    + open@[k].h,
            forall|k: int|
                0 <= k < i && open@[j as int].g + open@[j as int].h == (#[trigger] open@[k]).g
                    + open@[k].h ==> open@[k].h <= open@[j as int].h,
            forall|k: int|
                0 <= k < j ==> ((#[trigger] open@[k]).g + open@[k].h > open@[j as int].g + open@[
                    j as int
                ].h) || open@[k].h < open@[j as int].h,
        decreases open@.len() - i,
    {
        let fi = open[i].g as u128 + open[i].h as u128;
        let fj = open[j].g as u128 + open[j].h as u128;
        if fi < fj || (fi == fj && open[i].h > open[j].h) {
            j = i;
        }
        i = i + 1;
    }
    proof {
        reveal(is_expansion_choice);
    }
    j
}

/// Walks the predecessor links back from `t`, then reverses, producing a
/// valid walkable path from `s` to `t`.
fn reconstruct(
    grid: &Grid,
    s: Position,
    t: Position,
    came_from: &HashMap<u64, Position>,
    Ghost(gs): Ghost<Map<u64, u64>>,
) -> (path: Vec<Position>)
    requires
        grid.walkable(s),
        grid.walkable(t),
        gs.contains_key(grid.cell_key(t)),
        gs.contains_key(grid.cell_key(s)),
        gs[grid.cell_key(s)] == 0,
        forall|p: Position|
            grid.walkable(p) && gs.contains_key(#[trigger] grid.cell_key(p)) && p != s
                ==> came_from@.contains_key(grid.cell_key(p)),
        forall|p: Position|
            grid.walkable(p) && came_from@.contains_key(#[trigger] grid.cell_key(p)) ==> {
                let par = came_from@[grid.cell_key(p)];
                &&& p != s
                &&& grid.walkable(par)
                &&& adjacent(par, p)
                &&& gs.contains_key(grid.cell_key(p))
                &&& gs.contains_key(grid.cell_key(par))
                &&& gs[grid.cell_key(par)] + 1 == gs[grid.cell_key(p)]
            },
    ensures
        path_ok(*grid, s, t, path@),
        path@.len() == gs[grid.cell_key(t)] + 1,
{
    let mut rev: Vec<Position> = Vec::new();
    rev.push(t);
    let mut current: Position = t;
    loop
        invariant
            grid.walkable(s),
            grid.walkable(current),
            gs.contains_key(grid.cell_key(current)),
            gs.contains_key(grid.cell_key(s)),
            gs[grid.cell_key(s)] == 0,
            rev@.len() >= 1,
            rev@[0] == t,
            rev@[rev@.len() - 1] == current,
            forall|i: int| 0 <= i < rev@.len() ==> grid.walkable(#[trigger] rev@[i]),
            forall|i: int| 0 <= i < rev@.len() - 1 ==> adjacent(rev@[i + 1], #[trigger] rev@[i]),
            forall|p: Position|
                grid.walkable(p) && gs.contains_key(#[trigger] grid.cell_key(p)) && p != s
                    ==> came_from@.contains_key(grid.cell_key(p)),
            forall|p: Position|
                grid.walkable(p) && came_from@.contains_key(#[trigger] grid.cell_key(p)) ==> {
                    let par = came_from@[grid.cell_key(p)];
                    &&& p != s
                    &&& grid.walkable(par)
                    &&& adjacent(par, p)
                    &&& gs.contains_key(grid.cell_key(p))
                    &&& gs.contains_key(grid.cell_key(par))
                    &&& gs[grid.cell_key(par)] + 1 == gs[grid.cell_key(p)]
                },
            rev@.len() == gs[grid.cell_key(t)] - gs[grid.cell_key(current)] + 1,
        ensures
            current == s,
            rev@.len() == gs[grid.cell_key(t)] + 1,
        decreases gs[grid.cell_key(current)],
    {
        let ckey = grid.key_of(&current);
        match came_from.get(&ckey) {
            Some(par) => {
                let parent: Position = *par;
                rev.push(parent);
                current = parent;
            },
            None => {
                break;
            },
        }
    }
    // Reverse the collected chain into start-to-goal order.
    let n = rev.len();
    let mut path: Vec<Position> = Vec::new();
    let mut i: usize = 0;
    while i < n
        invariant
            n == rev@.len(),
            0 <= i <= n,
            path@.len() == i,
            forall|j: int| 0 <= j < i ==> #[trigger] path@[j] == rev@[n - 1 - j],
        decreases n - i,
    {
        path.push(rev[n - 1 - i]);
        i = i + 1;
    }
    proof {
        assert(path@[0] == rev@[n - 1]);
        assert(path@[path@.len() - 1] == rev@[0]);
        assert forall|j: int| 0 <= j < path@.len() implies grid.walkable(#[trigger] path@[j]) by {
            assert(path@[j] == rev@[n - 1 - j]);
        }
        assert forall|j: int| 0 <= j < path@.len() - 1 implies adjacent(
            #[trigger] path@[j],
            path@[j + 1],
        ) by {
            assert(path@[j] == rev@[n - 1 - j]);
            assert(path@[j + 1] == rev@[n - 2 - j]);
            assert(adjacent(rev@[(n - 2 - j) + 1], rev@[n - 2 - j]));
        }
    }
    path
}

/// A* search for a minimum-step walkable path from `start` to `goal`.
///
/// Returns a path exactly when one exists: `None` when `start` or `goal`
/// is not walkable or no walkable 4-connected route joins them, and
/// otherwise a walkable 4-connected path from `start` to `goal`
/// inclusive with as few cells as any walkable path between them.
/// Exploration order is deterministic: lowest `g + h` first, ties
/// preferring the node nearer the goal, then the earliest entry.
#[verifier::rlimit(100)]
pub fn find_path(grid: &Grid, start: Position, goal: Position) -> (r: Option<Vec<Position>>)
    ensures
        r.is_some() <==> reachable(*grid, start, goal),
        r matches Some(p) ==> path_ok(*grid, start, goal, p@),
        r matches Some(p) ==> no_shorter(*grid, start, goal, p@.len() - 1),
        r.is_some() ==> grid.walkable(start) && grid.walkable(goal),
{
    if !grid.is_walkable(&start) || !grid.is_walkable(&goal) {
        proof {
            if reachable(*grid, start, goal) {
                let p = choose|p: Seq<Position>| path_ok(*grid, start, goal, p);
                assert(grid.walkable(p[0]) && grid.walkable(p[p.len() - 1]));
            }
        }
        return None;
    }

    let ghost wh: int = grid.width as int * grid.height as int;
    proof {
        assert(1 <= wh < 0x4000_0000_0000_0000int) by (nonlinear_arith)
            requires
                wh == grid.width as int * grid.height as int,
                0 < grid.width < 0x8000_0000,
                0 < grid.height < 0x8000_0000,
        ;
        lemma_int_range(0, wh);
    }

    let mut open: Vec<Node> = Vec::new();
    let mut closed: HashSet<u64> = HashSet::new();
    let mut came_from: HashMap<u64, Position> = HashMap::new();
    let mut g_scores: HashMap<u64, u64> = HashMap::new();

    let start_h = start.manhattan_distance(&goal);
    open.push(Node { pos: start, g: 0, h: start_h as u64 });
    let skey = grid.key_of(&start);
    g_scores.insert(skey, 0);

    let ghost mut remaining: Set<int> = set_int_range(0, wh);
    let ghost mut ncl: int = 0;
    proof {
        assert(open@[0].pos == start);
        assert forall|p: Position|
            grid.walkable(p) && g_scores@.contains_key(#[trigger] grid.cell_key(p)) implies p
            == start && in_open(open@, p) by {
            assert(grid.cell_key(p) == skey);
            lemma_cell_key_injective(*grid, p, start);
            assert(open@[0].pos == p);
        }
    }

    loop
        invariant
            wh == grid.width as int * grid.height as int,
            1 <= wh < 0x4000_0000_0000_0000int,
            inv_core(*grid, start, goal, open@, closed@, g_scores@, came_from@, ncl),
            closure(*grid, open@, closed@),
            relaxed(*grid, closed@, g_scores@),
            in_open(open@, start) || closed_pos(*grid, closed@, start),
            remaining.finite(),
            remaining.len() + ncl == wh,
            forall|i: int| #[trigger] remaining.contains(i) <==> (0 <= i < wh
                && !closed@.contains(i as u64)),
        ensures
            open@.len() == 0,
            closure(*grid, open@, closed@),
            closed_pos(*grid, closed@, start),
            !closed@.contains(grid.cell_key(goal)),
            grid.walkable(start),
            grid.walkable(goal),
        decreases remaining.len(), open@.len(),
    {
        if open.len() == 0 {
            break;
        }
        let ghost open_before = open@;
        let best = best_index(&open);
        let current = open.remove(best);
        proof {
            open_before.remove_ensures(best as int);
            assert(current == open_before[best as int]);
        }
        if current.pos == goal {
            proof {
                lemma_popped_is_optimal(
                    *grid,
                    start,
                    goal,
                    open_before,
                    closed@,
                    g_scores@,
                    came_from@,
                    ncl,
                    best as int,
                );
            }
            let path = reconstruct(grid, start, goal, &came_from, Ghost(g_scores@));
            proof {
                assert(path_ok(*grid, start, goal, path@));
                assert(path@.len() == current.g + 1);
            }
            return Some(path);
        }
        let ckey = grid.key_of(&current.pos);
        if closed.contains(&ckey) {
            // Stale entry for an already-closed cell: discard it.
            proof {
                assert(closed_pos(*grid, closed@, current.pos));
                lemma_removed_repairs(
                    *grid,
                    start,
                    open_before,
                    best as int,
                    closed@,
                    g_scores@,
                    current.pos,
                );
            }
        } else {
            proof {
                lemma_popped_is_optimal(
                    *grid,
                    start,
                    goal,
                    open_before,
                    closed@,
                    g_scores@,
                    came_from@,
                    ncl,
                    best as int,
                );
                lemma_cf_path(*grid, start, g_scores@, came_from@, current.pos);
            }
            closed.insert(ckey);
            proof {
                assert(0 <= current.pos.y * grid.width + current.pos.x < wh) by (nonlinear_arith)
                    requires
                        wh == grid.width as int * grid.height as int,
                        0 <= current.pos.x < grid.width,
                        0 <= current.pos.y < grid.height,
                ;
                assert(remaining.contains(ckey as int));
                remaining = remaining.remove(ckey as int);
                ncl = ncl + 1;
                if grid.cell_key(goal) == ckey {
                    lemma_cell_key_injective(*grid, goal, current.pos);
                }
                assert forall|i: int| #[trigger] remaining.contains(i) <==> (0 <= i < wh
                    && !closed@.contains(i as u64)) by {
                    if 0 <= i < wh && i as u64 == ckey {
                        assert(i == ckey as int);
                    }
                }
                // Repair the open-list-dependent clauses after the removal.
                assert(closure_except(*grid, open_before, closed@, current.pos)) by {
                    assert forall|p: Position, q: Position|
                        closed_pos(*grid, closed@, p) && p != current.pos && grid.walkable(q)
                            && #[trigger] adjacent(p, q) && !closed_pos(*grid, closed@, q)
                            implies in_open(open_before, q) by {
                        if grid.cell_key(p) == ckey {
                            lemma_cell_key_injective(*grid, p, current.pos);
                        }
                    }
                }
                lemma_removed_repairs(
                    *grid,
                    start,
                    open_before,
                    best as int,
                    closed@,
                    g_scores@,
                    current.pos,
                );
                assert forall|p: Position, q: Position|
                    grid.walkable(p) && closed@.contains(grid.cell_key(p)) && p != current.pos
                        && grid.walkable(q) && #[trigger] adjacent(p, q) && !closed@.contains(
                        grid.cell_key(q),
                    ) implies g_scores@.contains_key(grid.cell_key(q)) && g_scores@[grid.cell_key(
                    q,
                )] <= g_scores@[grid.cell_key(p)] + 1 by {
                    if grid.cell_key(p) == ckey {
                        lemma_cell_key_injective(*grid, p, current.pos);
                    }
                }
                // The newly closed cell satisfies the closed-cell record:
                // its cost is exact, no path is shorter, and one path of
                // that length exists.
                assert forall|p: Position|
                    grid.walkable(p) && closed@.contains(#[trigger] grid.cell_key(p)) implies
                    g_scores@.contains_key(grid.cell_key(p)) && no_shorter(
                    *grid,
                    start,
                    p,
                    g_scores@[grid.cell_key(p)] as int,
                ) && has_path_len(*grid, start, p, g_scores@[grid.cell_key(p)] as int) by {
                    if grid.cell_key(p) == ckey {
                        lemma_cell_key_injective(*grid, p, current.pos);
                    }
                }
            }
            let ns = current.pos.neighbors();
            let mut idx: usize = 0;
            while idx < 4
                invariant
                    wh == grid.width as int * grid.height as int,
                    1 <= wh < 0x4000_0000_0000_0000int,
                    inv_core(*grid, start, goal, open@, closed@, g_scores@, came_from@, ncl),
                    closure_except(*grid, open@, closed@, current.pos),
                    relaxed_except(*grid, closed@, g_scores@, current.pos),
                    in_open(open@, start) || closed_pos(*grid, closed@, start),
                    remaining.finite(),
                    remaining.len() + ncl == wh,
                    forall|i: int| #[trigger] remaining.contains(i) <==> (0 <= i < wh
                        && !closed@.contains(i as u64)),
                    grid.walkable(current.pos),
                    closed@.contains(grid.cell_key(current.pos)),
                    g_scores@.contains_key(grid.cell_key(current.pos)),
                    g_scores@[grid.cell_key(current.pos)] == current.g,
                    current.g < ncl,
                    0 <= idx <= 4,
                    ns@.len() == 4,
                    forall|j: int| 0 <= j < 4 ==> adjacent(current.pos, #[trigger] ns@[j]),
                    forall|q: Position| adjacent(current.pos, q) ==> (exists|j: int|
                        0 <= j < 4 && ns@[j] == q),
                    forall|j: int| 0 <= j < idx ==> !grid.walkable(#[trigger] ns@[j])
                        || closed_pos(*grid, closed@, ns@[j]) || (in_open(open@, ns@[j])
                        && g_scores@.contains_key(grid.cell_key(ns@[j])) && g_scores@[grid.cell_key(
                        ns@[j],
                    )] <= current.g + 1),
                decreases 4 - idx,
            {
                let ghost open_pre = open@;
                let npos = ns[idx];
                if grid.is_walkable(&npos) {
                    let nkey = grid.key_of(&npos);
                    if !closed.contains(&nkey) {
                        let tentative = current.g + 1;
                        let better = match g_scores.get(&nkey) {
                            Some(eg) => tentative < *eg,
                            None => true,
                        };
                        if better {
                            proof {
                                if nkey == grid.cell_key(start) {
                                    lemma_cell_key_injective(*grid, npos, start);
                                    assert(false);
                                }
                            }
                            came_from.insert(nkey, current.pos);
                            g_scores.insert(nkey, tentative);
                            let nh = npos.manhattan_distance(&goal);
                            open.push(Node { pos: npos, g: tentative, h: nh as u64 });
                            proof {
                                assert(in_open(open@, npos)) by {
                                    assert(open@[open@.len() - 1].pos == npos);
                                }
                                assert forall|p: Position|
                                    grid.walkable(p) && came_from@.contains_key(
                                        #[trigger] grid.cell_key(p),
                                    ) implies {
                                    let par = came_from@[grid.cell_key(p)];
                                    &&& p != start
                                    &&& grid.walkable(par)
                                    &&& adjacent(par, p)
                                    &&& closed@.contains(grid.cell_key(par))
                                    &&& g_scores@.contains_key(grid.cell_key(p))
                                    &&& g_scores@.contains_key(grid.cell_key(par))
                                    &&& g_scores@[grid.cell_key(par)] + 1 == g_scores@[
                                        grid.cell_key(p)
                                    ]
                                } by {
                                    if grid.cell_key(p) == nkey {
                                        lemma_cell_key_injective(*grid, p, npos);
                                    } else {
                                        let par = came_from@[grid.cell_key(p)];
                                        if grid.cell_key(par) == nkey {
                                            lemma_cell_key_injective(*grid, par, npos);
                                        }
                                    }
                                }
                                assert forall|p: Position|
                                    grid.walkable(p) && g_scores@.contains_key(
                                        #[trigger] grid.cell_key(p),
                                    ) && !closed@.contains(grid.cell_key(p)) implies in_open_g(
                                    open@,
                                    p,
                                    g_scores@[grid.cell_key(p)],
                                ) by {
                                    if grid.cell_key(p) == nkey {
                                        lemma_cell_key_injective(*grid, p, npos);
                                        assert(open@[open@.len() - 1].pos == npos
                                            && open@[open@.len() - 1].g == tentative);
                                    } else {
                                        assert(in_open_g(open_pre, p, g_scores@[grid.cell_key(p)]));
                                        let w = choose|w: int|
                                            0 <= w < open_pre.len() && (#[trigger] open_pre[w]).pos
                                                == p && open_pre[w].g == g_scores@[grid.cell_key(
                                                p,
                                            )];
                                        assert(open@[w].pos == p && open@[w].g == g_scores@[
                                            grid.cell_key(p)
                                        ]);
                                    }
                                }
                                assert forall|p: Position, q: Position|
                                    closed_pos(*grid, closed@, p) && p != current.pos
                                        && grid.walkable(q) && #[trigger] adjacent(p, q)
                                        && !closed_pos(*grid, closed@, q) implies in_open(
                                    open@,
                                    q,
                                ) by {
                                    assert(in_open(open_pre, q));
                                    let w = choose|w: int|
                                        0 <= w < open_pre.len() && (#[trigger] open_pre[w]).pos
                                            == q;
                                    assert(open@[w].pos == q);
                                }
                                if in_open(open_pre, start) {
                                    let w = choose|w: int|
                                        0 <= w < open_pre.len() && (#[trigger] open_pre[w]).pos
                                            == start;
                                    assert(open@[w].pos == start);
                                }
                                assert forall|j: int|
                                    0 <= j < idx implies !grid.walkable(#[trigger] ns@[j])
                                    || closed_pos(*grid, closed@, ns@[j]) || in_open(
                                    open@,
                                    ns@[j],
                                ) by {
                                    if grid.walkable(ns@[j]) && !closed_pos(*grid, closed@, ns@[j])
                                        && in_open(open_pre, ns@[j]) {
                                        let w = choose|w: int|
                                            0 <= w < open_pre.len() && (#[trigger] open_pre[w]).pos
                                                == ns@[j];
                                        assert(open@[w].pos == ns@[j]);
                                    }
                                }
                            }
                        } else {
                            proof {
                                assert(in_open_g(
                                    open@,
                                    npos,
                                    g_scores@[grid.cell_key(npos)],
                                ));
                                let w = choose|w: int|
                                    0 <= w < open@.len() && (#[trigger] open@[w]).pos == npos
                                        && open@[w].g == g_scores@[grid.cell_key(npos)];
                                assert(in_open(open@, npos)) by {
                                    assert(open@[w].pos == npos);
                                }
                            }
                        }
                    }
                }
                idx = idx + 1;
            }
            proof {
                // Full closure and full relaxation are restored: every
                // neighbor of the newly closed cell has been examined.
                assert forall|p: Position, q: Position|
                    closed_pos(*grid, closed@, p) && grid.walkable(q) && #[trigger] adjacent(p, q)
                        && !closed_pos(*grid, closed@, q) implies in_open(open@, q) by {
                    if p == current.pos {
                        let j = choose|j: int| 0 <= j < 4 && ns@[j] == q;
                        assert(!grid.walkable(ns@[j]) || closed_pos(*grid, closed@, ns@[j])
                            || in_open(open@, ns@[j]));
                    }
                }
                assert forall|p: Position, q: Position|
                    grid.walkable(p) && closed@.contains(grid.cell_key(p)) && grid.walkable(q)
                        && #[trigger] adjacent(p, q) && !closed@.contains(grid.cell_key(q))
                        implies g_scores@.contains_key(grid.cell_key(q)) && g_scores@[grid.cell_key(
                    q,
                )] <= g_scores@[grid.cell_key(p)] + 1 by {
                    if p == current.pos {
                        let j = choose|j: int| 0 <= j < 4 && ns@[j] == q;
                        assert(!grid.walkable(ns@[j]) || closed_pos(*grid, closed@, ns@[j]) || (
                        g_scores@.contains_key(grid.cell_key(ns@[j])) && g_scores@[grid.cell_key(
                            ns@[j],
                        )] <= current.g + 1));
                    } else {
                        if grid.cell_key(p) == grid.cell_key(current.pos) {
                            lemma_cell_key_injective(*grid, p, current.pos);
                        }
                    }
                }
            }
        }
    }
    proof {
        if reachable(*grid, start, goal) {
            let p = choose|p: Seq<Position>| #[trigger] path_ok(*grid, start, goal, p);
            assert forall|a: Position, b: Position|
                closed_pos(*grid, closed@, a) && grid.walkable(b) && #[trigger] adjacent(a, b)
                    implies closed_pos(*grid, closed@, b) by {
                assert(!in_open(open@, b));
            }
            lemma_path_stays_closed(*grid, closed@, start, goal, p, p.len() - 1);
            assert(false);
        }
    }
    None
}

} // verus!
