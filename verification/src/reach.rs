//! The mathematical model of reachability over a grid: which tiles can be
//! walked to from a starting coordinate through 4-neighbor steps over
//! walkable tiles. The connectivity analyzer and every generator contract is
//! stated against these definitions.

use vstd::prelude::*;
use crate::grid::Grid;
use crate::tile::{walkable, TileType};

verus! {

/// Tile (x, y) exists and can be stood on.
pub open spec fn walkable_at(m: Grid, x: int, y: int) -> bool {
    m.in_bounds(x, y) && walkable(m.tiles@[m.idx(x, y)])
}

/// (x2, y2) is one cardinal step from (x1, y1).
pub open spec fn adjacent(x1: int, y1: int, x2: int, y2: int) -> bool {
    ||| (x2 == x1 + 1 && y2 == y1)
    ||| (x2 == x1 - 1 && y2 == y1)
    ||| (x2 == x1 && y2 == y1 + 1)
    ||| (x2 == x1 && y2 == y1 - 1)
}

/// (x, y) can be reached from (sx, sy) by a walk of at most `n` steps over
/// walkable tiles.
pub open spec fn reach_n(m: Grid, sx: int, sy: int, x: int, y: int, n: nat) -> bool
    decreases n,
{
    if n == 0 {
        x == sx && y == sy && walkable_at(m, x, y)
    } else {
        reach_n(m, sx, sy, x, y, (n - 1) as nat) || (walkable_at(m, x, y) && exists|px: int, py: int|
            reach_n(m, sx, sy, px, py, (n - 1) as nat) && adjacent(px, py, x, y))
    }
}

/// (x, y) can be reached from (sx, sy) by some walk over walkable tiles.
pub open spec fn reach(m: Grid, sx: int, sy: int, x: int, y: int) -> bool {
    exists|n: nat| reach_n(m, sx, sy, x, y, n)
}

/// The tile at flat index `i` can be reached from (sx, sy) within `n` steps:
/// the index form of [`reach_n`], used to speak about a tile's shortest-path
/// distance (it is the least such `n`).
pub open spec fn idx_reach_within(m: Grid, sx: int, sy: int, i: int, n: nat) -> bool {
    exists|x: int, y: int| m.in_bounds(x, y) && i == m.idx(x, y)
        && reach_n(m, sx, sy, x, y, n)
}

/// A walk within `n` steps is also a walk within any larger budget.
pub proof fn lemma_reach_n_mono(m: Grid, sx: int, sy: int, x: int, y: int, n1: nat, n2: nat)
    requires
        reach_n(m, sx, sy, x, y, n1),
        n1 <= n2,
    ensures
        reach_n(m, sx, sy, x, y, n2),
    decreases n2,
{
    if n1 < n2 {
        lemma_reach_n_mono(m, sx, sy, x, y, n1, (n2 - 1) as nat);
    }
}

/// Every walkable tile of the map can be reached from (sx, sy).
pub open spec fn fully_connected(m: Grid, sx: int, sy: int) -> bool {
    forall|x: int, y: int| walkable_at(m, x, y) ==> reach(m, sx, sy, x, y)
}

/// The map holds exactly one StairsDown tile.
pub open spec fn single_stairs(m: Grid) -> bool {
    exists|e: int|
        0 <= e < m.tiles@.len() && m.tiles@[e] == TileType::StairsDown && (forall|i: int|
            0 <= i < m.tiles@.len() && i != e ==> m.tiles@[i] != TileType::StairsDown)
}

/// The map holds no StairsDown tile at all.
pub open spec fn no_stairs(m: Grid) -> bool {
    forall|i: int| 0 <= i < m.tiles@.len() ==> m.tiles@[i] != TileType::StairsDown
}

/// A walkable start tile reaches itself.
pub proof fn lemma_reach_start(m: Grid, sx: int, sy: int)
    requires
        walkable_at(m, sx, sy),
    ensures
        reach(m, sx, sy, sx, sy),
{
    assert(reach_n(m, sx, sy, sx, sy, 0));
}

/// Reachability extends across one step to an adjacent walkable tile.
pub proof fn lemma_reach_step(m: Grid, sx: int, sy: int, x: int, y: int, nx: int, ny: int)
    requires
        reach(m, sx, sy, x, y),
        adjacent(x, y, nx, ny),
        walkable_at(m, nx, ny),
    ensures
        reach(m, sx, sy, nx, ny),
{
    let n = choose|n: nat| reach_n(m, sx, sy, x, y, n);
    assert(reach_n(m, sx, sy, nx, ny, n + 1));
}

/// Reachability depends on the map only through its walkable tiles: two maps
/// that agree on where one can stand agree on where one can walk.
pub proof fn lemma_reach_frame(m1: Grid, m2: Grid, sx: int, sy: int, x: int, y: int)
    requires
        forall|a: int, b: int| walkable_at(m1, a, b) == walkable_at(m2, a, b),
        reach(m1, sx, sy, x, y),
    ensures
        reach(m2, sx, sy, x, y),
{
    let n = choose|n: nat| reach_n(m1, sx, sy, x, y, n);
    lemma_reach_n_frame(m1, m2, sx, sy, x, y, n);
    assert(reach_n(m2, sx, sy, x, y, n));
}

/// The step-bounded form of [`lemma_reach_frame`]: the walk itself carries
/// over between maps that agree on walkability, budget included.
pub proof fn lemma_reach_n_frame(m1: Grid, m2: Grid, sx: int, sy: int, x: int, y: int, n: nat)
    requires
        forall|a: int, b: int| walkable_at(m1, a, b) == walkable_at(m2, a, b),
        reach_n(m1, sx, sy, x, y, n),
    ensures
        reach_n(m2, sx, sy, x, y, n),
    decreases n,
{
    if n == 0 {
    } else {
        if reach_n(m1, sx, sy, x, y, (n - 1) as nat) {
            lemma_reach_n_frame(m1, m2, sx, sy, x, y, (n - 1) as nat);
        } else {
            let (px, py) = choose|px: int, py: int|
                reach_n(m1, sx, sy, px, py, (n - 1) as nat) && adjacent(px, py, x, y);
            lemma_reach_n_frame(m1, m2, sx, sy, px, py, (n - 1) as nat);
        }
    }
}

/// Removing only unreachable tiles preserves reachability: if the new map
/// keeps every tile that was reachable in the old one, everything reachable
/// in the old map is still reachable in the new.
pub proof fn lemma_repair_preserves_reach(m1: Grid, m2: Grid, sx: int, sy: int, x: int, y: int)
    requires
        walkable_at(m2, sx, sy),
        forall|a: int, b: int|
            walkable_at(m1, a, b) && reach(m1, sx, sy, a, b) ==> walkable_at(m2, a, b),
        reach(m1, sx, sy, x, y),
    ensures
        reach(m2, sx, sy, x, y),
{
    let n = choose|n: nat| reach_n(m1, sx, sy, x, y, n);
    lemma_repair_preserves_reach_n(m1, m2, sx, sy, x, y, n);
}

proof fn lemma_repair_preserves_reach_n(m1: Grid, m2: Grid, sx: int, sy: int, x: int, y: int, n: nat)
    requires
        walkable_at(m2, sx, sy),
        forall|a: int, b: int|
            walkable_at(m1, a, b) && reach(m1, sx, sy, a, b) ==> walkable_at(m2, a, b),
        reach_n(m1, sx, sy, x, y, n),
    ensures
        reach(m2, sx, sy, x, y),
    decreases n,
{
    if n == 0 {
        lemma_reach_start(m2, sx, sy);
    } else {
        if reach_n(m1, sx, sy, x, y, (n - 1) as nat) {
            lemma_repair_preserves_reach_n(m1, m2, sx, sy, x, y, (n - 1) as nat);
        } else {
            let (px, py) = choose|px: int, py: int|
                reach_n(m1, sx, sy, px, py, (n - 1) as nat) && adjacent(px, py, x, y);
            lemma_repair_preserves_reach_n(m1, m2, sx, sy, px, py, (n - 1) as nat);
            assert(reach(m1, sx, sy, x, y)) by {
                assert(reach_n(m1, sx, sy, x, y, n));
            }
            assert(walkable_at(m2, x, y));
            lemma_reach_step(m2, sx, sy, px, py, x, y);
        }
    }
}

/// The distance array of a finished breadth-first search is a true
/// shortest-path bound: when the start holds zero and every discovered tile
/// relaxes each walkable neighbor to at most one more step, any walk of `n`
/// steps ends on a tile whose recorded distance is set and at most `n`.
pub proof fn lemma_reach_n_distance_bound(
    m: Grid,
    sx: int,
    sy: int,
    x: int,
    y: int,
    n: nat,
    dist: Seq<i32>,
)
    requires
        m.inv(),
        dist.len() == m.tiles@.len(),
        m.in_bounds(sx, sy),
        dist[m.idx(sx, sy)] == 0,
        forall|a: int, b: int, c: int, d: int|
            m.in_bounds(a, b) && dist[m.idx(a, b)] != -1 && #[trigger] adjacent(a, b, c, d)
                && walkable_at(m, c, d)
            ==> dist[m.idx(c, d)] != -1 && dist[m.idx(c, d)] <= dist[m.idx(a, b)] + 1,
        reach_n(m, sx, sy, x, y, n),
    ensures
        m.in_bounds(x, y),
        dist[m.idx(x, y)] != -1,
        dist[m.idx(x, y)] <= n,
    decreases n,
{
    if n == 0 {
    } else {
        if reach_n(m, sx, sy, x, y, (n - 1) as nat) {
            lemma_reach_n_distance_bound(m, sx, sy, x, y, (n - 1) as nat, dist);
        } else {
            let (px, py) = choose|px: int, py: int|
                reach_n(m, sx, sy, px, py, (n - 1) as nat) && adjacent(px, py, x, y);
            lemma_reach_n_distance_bound(m, sx, sy, px, py, (n - 1) as nat, dist);
        }
    }
}

/// Every tile on the discovered side of a closed frontier is discovered: if a
/// predicate encoded as "distance is set" holds at the start and propagates
/// across every walkable adjacency, it covers everything reachable.
pub proof fn lemma_reach_closed_set(
    m: Grid,
    sx: int,
    sy: int,
    x: int,
    y: int,
    dist: Seq<i32>,
)
    requires
        m.inv(),
        dist.len() == m.tiles@.len(),
        m.in_bounds(sx, sy),
        dist[m.idx(sx, sy)] != -1,
        forall|a: int, b: int, c: int, d: int|
            m.in_bounds(a, b) && dist[m.idx(a, b)] != -1 && #[trigger] adjacent(a, b, c, d)
                && walkable_at(m, c, d) ==> dist[m.idx(c, d)] != -1,
        reach(m, sx, sy, x, y),
    ensures
        m.in_bounds(x, y) && dist[m.idx(x, y)] != -1,
{
    let n = choose|n: nat| reach_n(m, sx, sy, x, y, n);
    lemma_reach_closed_set_n(m, sx, sy, x, y, n, dist);
}

proof fn lemma_reach_closed_set_n(
    m: Grid,
    sx: int,
    sy: int,
    x: int,
    y: int,
    n: nat,
    dist: Seq<i32>,
)
    requires
        m.inv(),
        dist.len() == m.tiles@.len(),
        m.in_bounds(sx, sy),
        dist[m.idx(sx, sy)] != -1,
        forall|a: int, b: int, c: int, d: int|
            m.in_bounds(a, b) && dist[m.idx(a, b)] != -1 && #[trigger] adjacent(a, b, c, d)
                && walkable_at(m, c, d) ==> dist[m.idx(c, d)] != -1,
        reach_n(m, sx, sy, x, y, n),
    ensures
        m.in_bounds(x, y) && dist[m.idx(x, y)] != -1,
    decreases n,
{
    if n == 0 {
    } else {
        if reach_n(m, sx, sy, x, y, (n - 1) as nat) {
            lemma_reach_closed_set_n(m, sx, sy, x, y, (n - 1) as nat, dist);
        } else {
            let (px, py) = choose|px: int, py: int|
                reach_n(m, sx, sy, px, py, (n - 1) as nat) && adjacent(px, py, x, y);
            lemma_reach_closed_set_n(m, sx, sy, px, py, (n - 1) as nat, dist);
        }
    }
}

} // verus!
