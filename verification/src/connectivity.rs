//! The connectivity analyzer: breadth-first shortest-path distances from a
//! start tile, and the repair pass that demotes unreachable floor pockets to
//! wall and selects the most distant reachable tile as the exit.

use vstd::prelude::*;
use crate::grid::Grid;
use crate::tile::{walkable, TileType};
use crate::reach::{adjacent, reach, reach_n, idx_reach_within, walkable_at};
use crate::reach::{lemma_reach_start, lemma_reach_step, lemma_reach_closed_set};
use crate::reach::{lemma_reach_n_mono, lemma_reach_n_frame, lemma_reach_n_distance_bound};
use crate::reach::{no_stairs, fully_connected, single_stairs};
use crate::reach::{lemma_reach_frame, lemma_repair_preserves_reach};
use crate::grid::Position;

verus! {

/// A sequence of pairwise-distinct in-bounds coordinates cannot hold more
/// entries than the grid has tiles.
proof fn lemma_queue_len_bound(g: Grid, q: Seq<(i32, i32)>)
    requires
        g.inv(),
        forall|k: int| 0 <= k < q.len() ==> g.in_bounds(#[trigger] q[k].0 as int, q[k].1 as int),
        forall|k1: int, k2: int| 0 <= k1 < k2 < q.len() ==> q[k1] != q[k2],
    ensures
        q.len() <= g.tiles@.len(),
{
    let f = |p: (i32, i32)| g.idx(p.0 as int, p.1 as int);
    let s = q.map_values(f);
    assert forall|k1: int, k2: int| 0 <= k1 < k2 < s.len() implies s[k1] != s[k2] by {
        if s[k1] == s[k2] {
            g.lemma_idx_injective(
                q[k1].0 as int, q[k1].1 as int,
                q[k2].0 as int, q[k2].1 as int,
            );
        }
    }
    assert(s.no_duplicates());
    s.unique_seq_to_set();
    let range = vstd::set_lib::set_int_range(0, g.tiles@.len() as int);
    vstd::set_lib::lemma_int_range(0, g.tiles@.len() as int);
    assert forall|e: int| s.to_set().contains(e) implies range.contains(e) by {
        let k = choose|k: int| 0 <= k < s.len() && s[k] == e;
        g.lemma_idx_bounds(q[k].0 as int, q[k].1 as int);
    }
    vstd::set_lib::lemma_len_subset(s.to_set(), range);
}

/// Breadth-first distances from (sx, sy) over walkable tiles, one entry per
/// tile, with unreachable tiles marked -1. A tile's entry is non-negative
/// exactly when the tile is reachable from the start.
impl Grid {

/// Breadth-first distances from (sx, sy).
pub fn shortest_distances(&self, sx: i32, sy: i32) -> (dist: Vec<i32>)
    requires
        self.inv(),
        self.in_bounds(sx as int, sy as int),
        walkable(self.tiles@[self.idx(sx as int, sy as int)]),
    ensures
        dist@.len() == self.tiles@.len(),
        dist@[self.idx(sx as int, sy as int)] == 0,
        forall|x: int, y: int| self.in_bounds(x, y) ==> ((#[trigger] dist@[self.idx(x, y)] != -1)
            <==> reach(*self, sx as int, sy as int, x, y)),
        forall|x: int, y: int| self.in_bounds(x, y)
            ==> -1 <= #[trigger] dist@[self.idx(x, y)] <= self.tiles@.len(),
        // the entries are true shortest-path distances: a set entry is the
        // length of some walk, and no shorter walk exists
        forall|x: int, y: int| self.in_bounds(x, y) && #[trigger] dist@[self.idx(x, y)] != -1
            ==> reach_n(*self, sx as int, sy as int, x, y, dist@[self.idx(x, y)] as nat),
        forall|x: int, y: int, n: nat| self.in_bounds(x, y)
            && #[trigger] reach_n(*self, sx as int, sy as int, x, y, n)
            ==> dist@[self.idx(x, y)] != -1 && dist@[self.idx(x, y)] <= n,
{
    let n = self.tiles.len();
    let mut dist: Vec<i32> = Vec::new();
    let mut i: usize = 0;
    while i < n
        invariant
            i <= n,
            dist@.len() == i,
            forall|k: int| 0 <= k < i ==> dist@[k] == -1,
        decreases n - i,
    {
        dist.push(-1);
        i = i + 1;
    }
    let si = self.xy_idx(sx, sy);
    dist.set(si, 0);
    let mut queue: Vec<(i32, i32)> = Vec::new();
    queue.push((sx, sy));
    let mut head: usize = 0;

    proof {
        lemma_reach_start(*self, sx as int, sy as int);
        assert(queue@[0] == (sx, sy));
        assert(reach_n(*self, sx as int, sy as int, sx as int, sy as int, 0));
        assert forall|x: int, y: int|
            self.in_bounds(x, y) && #[trigger] dist@[self.idx(x, y)] != -1
            implies (exists|k: int| 0 <= k < queue@.len() && queue@[k].0 as int == x
                && queue@[k].1 as int == y)
                && reach_n(*self, sx as int, sy as int, x, y,
                    dist@[self.idx(x, y)] as nat) by {
            self.lemma_idx_bounds(x, y);
            if self.idx(x, y) == self.idx(sx as int, sy as int) {
                self.lemma_idx_injective(x, y, sx as int, sy as int);
                assert(queue@[0].0 as int == x && queue@[0].1 as int == y);
                assert(x == sx as int && y == sy as int && dist@[self.idx(x, y)] == 0);
            }
        }
    }

    while head < queue.len()
        invariant
            self.inv(),
            self.in_bounds(sx as int, sy as int),
            walkable(self.tiles@[self.idx(sx as int, sy as int)]),
            n == self.tiles@.len(),
            dist@.len() == n,
            head <= queue@.len(),
            queue@.len() <= n,
            dist@[self.idx(sx as int, sy as int)] == 0,
            forall|k: int| 0 <= k < queue@.len()
                ==> self.in_bounds(#[trigger] queue@[k].0 as int, queue@[k].1 as int),
            forall|k: int| 0 <= k < queue@.len()
                ==> #[trigger] dist@[self.idx(queue@[k].0 as int, queue@[k].1 as int)] != -1,
            forall|k: int| 0 <= k < queue@.len()
                ==> #[trigger] dist@[self.idx(queue@[k].0 as int, queue@[k].1 as int)] <= k,
            forall|k1: int, k2: int| 0 <= k1 < k2 < queue@.len() ==> queue@[k1] != queue@[k2],
            forall|x: int, y: int| self.in_bounds(x, y)
                ==> -1 <= #[trigger] dist@[self.idx(x, y)] <= n,
            forall|x: int, y: int| self.in_bounds(x, y) && #[trigger] dist@[self.idx(x, y)] != -1
                ==> reach(*self, sx as int, sy as int, x, y),
            forall|x: int, y: int| self.in_bounds(x, y) && #[trigger] dist@[self.idx(x, y)] != -1
                ==> exists|k: int| 0 <= k < queue@.len() && queue@[k].0 as int == x
                    && queue@[k].1 as int == y,
            forall|x: int, y: int| self.in_bounds(x, y) && #[trigger] dist@[self.idx(x, y)] != -1
                ==> reach_n(*self, sx as int, sy as int, x, y, dist@[self.idx(x, y)] as nat),
            forall|k1: int, k2: int| 0 <= k1 <= k2 < queue@.len()
                ==> dist@[self.idx(#[trigger] queue@[k1].0 as int, queue@[k1].1 as int)]
                    <= dist@[self.idx(#[trigger] queue@[k2].0 as int, queue@[k2].1 as int)],
            head < queue@.len() ==> forall|k: int| 0 <= k < queue@.len()
                ==> dist@[self.idx(#[trigger] queue@[k].0 as int, queue@[k].1 as int)]
                    <= dist@[self.idx(queue@[head as int].0 as int,
                        queue@[head as int].1 as int)] + 1,
            forall|k: int, c: int, d: int| 0 <= k < head
                && #[trigger] adjacent(queue@[k].0 as int, queue@[k].1 as int, c, d)
                && walkable_at(*self, c, d)
                ==> dist@[self.idx(c, d)] != -1
                    && dist@[self.idx(c, d)]
                        <= dist@[self.idx(queue@[k].0 as int, queue@[k].1 as int)] + 1,
        decreases n - head,
    {
        let (cx, cy) = queue[head];
        let ci = self.xy_idx(cx, cy);
        let dcur = dist[ci];
        proof {
            assert(dcur <= head);
        }

        if cx + 1 < self.width {
            visit_neighbor(self, &mut dist, &mut queue, sx, sy, head, cx, cy, cx + 1, cy, dcur);
        }
        if cx > 0 {
            visit_neighbor(self, &mut dist, &mut queue, sx, sy, head, cx, cy, cx - 1, cy, dcur);
        }
        if cy + 1 < self.height {
            visit_neighbor(self, &mut dist, &mut queue, sx, sy, head, cx, cy, cx, cy + 1, dcur);
        }
        if cy > 0 {
            visit_neighbor(self, &mut dist, &mut queue, sx, sy, head, cx, cy, cx, cy - 1, dcur);
        }

        proof {
            assert(dist@[self.idx(cx as int, cy as int)] == dcur);
            assert forall|c: int, d: int|
                adjacent(cx as int, cy as int, c, d) && walkable_at(*self, c, d)
                implies dist@[self.idx(c, d)] != -1
                    && dist@[self.idx(c, d)] <= dcur + 1 by {
                // a discovered tile sits in the queue, whose values the
                // frontier bound caps at one past the current entry
                let k = choose|k: int| 0 <= k < queue@.len() && queue@[k].0 as int == c
                    && queue@[k].1 as int == d;
            }
        }
        head = head + 1;
    }

    proof {
        // a finished search has relaxed every edge out of every discovered
        // tile, so the recorded entries are true shortest-path distances
        assert forall|a: int, b: int, c: int, d: int|
            self.in_bounds(a, b) && dist@[self.idx(a, b)] != -1 && #[trigger] adjacent(a, b, c, d)
                && walkable_at(*self, c, d)
            implies dist@[self.idx(c, d)] != -1
                && dist@[self.idx(c, d)] <= dist@[self.idx(a, b)] + 1 by {
            let k = choose|k: int| 0 <= k < queue@.len() && queue@[k].0 as int == a
                && queue@[k].1 as int == b;
        }
        assert forall|x: int, y: int|
            self.in_bounds(x, y) && reach(*self, sx as int, sy as int, x, y)
            implies #[trigger] dist@[self.idx(x, y)] != -1 by {
            lemma_reach_closed_set(*self, sx as int, sy as int, x, y, dist@);
        }
        assert forall|x: int, y: int, n: nat| self.in_bounds(x, y)
            && #[trigger] reach_n(*self, sx as int, sy as int, x, y, n)
            implies dist@[self.idx(x, y)] != -1 && dist@[self.idx(x, y)] <= n by {
            lemma_reach_n_distance_bound(*self, sx as int, sy as int, x, y, n, dist@);
        }
    }
    dist
}

}

/// One BFS relaxation: discover (nx, ny) from the queue entry (cx, cy) at
/// position `head` if it is walkable and not yet seen.
fn visit_neighbor(
    g: &Grid,
    dist: &mut Vec<i32>,
    queue: &mut Vec<(i32, i32)>,
    sx: i32,
    sy: i32,
    head: usize,
    cx: i32,
    cy: i32,
    nx: i32,
    ny: i32,
    dcur: i32,
)
    requires
        g.inv(),
        g.in_bounds(sx as int, sy as int),
        g.in_bounds(cx as int, cy as int),
        g.in_bounds(nx as int, ny as int),
        head < old(queue)@.len(),
        old(queue)@[head as int] == (cx, cy),
        adjacent(cx as int, cy as int, nx as int, ny as int),
        old(dist)@.len() == g.tiles@.len(),
        old(queue)@.len() <= g.tiles@.len(),
        dcur == old(dist)@[g.idx(cx as int, cy as int)],
        0 <= dcur <= head,
        dist@[g.idx(sx as int, sy as int)] == 0,
        forall|k: int| 0 <= k < old(queue)@.len()
            ==> g.in_bounds(#[trigger] old(queue)@[k].0 as int, old(queue)@[k].1 as int),
        forall|k: int| 0 <= k < old(queue)@.len()
            ==> #[trigger] old(dist)@[g.idx(old(queue)@[k].0 as int, old(queue)@[k].1 as int)]
                != -1,
        forall|k: int| 0 <= k < old(queue)@.len()
            ==> #[trigger] old(dist)@[g.idx(old(queue)@[k].0 as int, old(queue)@[k].1 as int)]
                <= k,
        forall|k1: int, k2: int| 0 <= k1 < k2 < old(queue)@.len()
            ==> old(queue)@[k1] != old(queue)@[k2],
        forall|x: int, y: int| g.in_bounds(x, y)
            ==> -1 <= #[trigger] old(dist)@[g.idx(x, y)] <= g.tiles@.len(),
        forall|x: int, y: int| g.in_bounds(x, y) && #[trigger] old(dist)@[g.idx(x, y)] != -1
            ==> reach(*g, sx as int, sy as int, x, y),
        forall|x: int, y: int| g.in_bounds(x, y) && #[trigger] old(dist)@[g.idx(x, y)] != -1
            ==> exists|k: int| 0 <= k < old(queue)@.len() && old(queue)@[k].0 as int == x
                && old(queue)@[k].1 as int == y,
        forall|x: int, y: int| g.in_bounds(x, y) && #[trigger] old(dist)@[g.idx(x, y)] != -1
            ==> reach_n(*g, sx as int, sy as int, x, y, old(dist)@[g.idx(x, y)] as nat),
        forall|k1: int, k2: int| 0 <= k1 <= k2 < old(queue)@.len()
            ==> old(dist)@[g.idx(#[trigger] old(queue)@[k1].0 as int, old(queue)@[k1].1 as int)]
                <= old(dist)@[g.idx(#[trigger] old(queue)@[k2].0 as int,
                    old(queue)@[k2].1 as int)],
        forall|k: int| 0 <= k < old(queue)@.len()
            ==> old(dist)@[g.idx(#[trigger] old(queue)@[k].0 as int, old(queue)@[k].1 as int)]
                <= dcur + 1,
    ensures
        final(dist)@.len() == old(dist)@.len(),
        final(queue)@.len() >= old(queue)@.len(),
        final(queue)@.len() <= g.tiles@.len(),
        head < final(queue)@.len(),
        // the queue only grows, and existing entries are untouched
        forall|k: int| 0 <= k < old(queue)@.len()
            ==> final(queue)@[k] == old(queue)@[k],
        // entries already discovered stay discovered and keep their value
        forall|x: int, y: int| g.in_bounds(x, y) && #[trigger] old(dist)@[g.idx(x, y)] != -1
            ==> final(dist)@[g.idx(x, y)] == old(dist)@[g.idx(x, y)],
        // no entry is forgotten
        forall|x: int, y: int| g.in_bounds(x, y) && #[trigger] final(dist)@[g.idx(x, y)] == -1
            ==> old(dist)@[g.idx(x, y)] == -1,
        // the target neighbor is now discovered if it is walkable
        walkable_at(*g, nx as int, ny as int) ==> final(dist)@[g.idx(nx as int, ny as int)] != -1,
        // all structural invariants are maintained
        final(dist)@[g.idx(sx as int, sy as int)] == 0,
        forall|k: int| 0 <= k < final(queue)@.len()
            ==> g.in_bounds(#[trigger] final(queue)@[k].0 as int, final(queue)@[k].1 as int),
        forall|k: int| 0 <= k < final(queue)@.len()
            ==> #[trigger] final(dist)@[g.idx(final(queue)@[k].0 as int,
                final(queue)@[k].1 as int)] != -1,
        forall|k: int| 0 <= k < final(queue)@.len()
            ==> #[trigger] final(dist)@[g.idx(final(queue)@[k].0 as int,
                final(queue)@[k].1 as int)] <= k,
        forall|k1: int, k2: int| 0 <= k1 < k2 < final(queue)@.len()
            ==> final(queue)@[k1] != final(queue)@[k2],
        forall|x: int, y: int| g.in_bounds(x, y)
            ==> -1 <= #[trigger] final(dist)@[g.idx(x, y)] <= g.tiles@.len(),
        forall|x: int, y: int| g.in_bounds(x, y) && #[trigger] final(dist)@[g.idx(x, y)] != -1
            ==> reach(*g, sx as int, sy as int, x, y),
        forall|x: int, y: int| g.in_bounds(x, y) && #[trigger] final(dist)@[g.idx(x, y)] != -1
            ==> exists|k: int| 0 <= k < final(queue)@.len() && final(queue)@[k].0 as int == x
                && final(queue)@[k].1 as int == y,
        forall|x: int, y: int| g.in_bounds(x, y) && #[trigger] final(dist)@[g.idx(x, y)] != -1
            ==> reach_n(*g, sx as int, sy as int, x, y, final(dist)@[g.idx(x, y)] as nat),
        forall|k1: int, k2: int| 0 <= k1 <= k2 < final(queue)@.len()
            ==> final(dist)@[g.idx(#[trigger] final(queue)@[k1].0 as int,
                    final(queue)@[k1].1 as int)]
                <= final(dist)@[g.idx(#[trigger] final(queue)@[k2].0 as int,
                    final(queue)@[k2].1 as int)],
        forall|k: int| 0 <= k < final(queue)@.len()
            ==> final(dist)@[g.idx(#[trigger] final(queue)@[k].0 as int,
                    final(queue)@[k].1 as int)]
                <= dcur + 1,
{
    let ni = g.xy_idx(nx, ny);
    let t = g.tiles[ni];
    if t.is_walkable() && dist[ni] == -1 {
        proof {
            // (nx, ny) is not yet in the queue: every queue entry is discovered
            assert forall|k: int| 0 <= k < queue@.len()
                implies queue@[k] != (nx, ny) by {
                if queue@[k] == (nx, ny) {
                    assert(queue@[k].0 == nx && queue@[k].1 == ny);
                    assert(dist@[g.idx(queue@[k].0 as int, queue@[k].1 as int)] != -1);
                }
            }
            // (cx, cy) is discovered, hence reachable; extend by one step
            assert(dist@[g.idx(cx as int, cy as int)] == dcur && dcur >= 0);
            assert(reach(*g, sx as int, sy as int, cx as int, cy as int));
            lemma_reach_step(*g, sx as int, sy as int, cx as int, cy as int, nx as int, ny as int);
            // growing the queue keeps it within the tile count
            lemma_queue_len_bound(
                *g,
                queue@.push((nx, ny)),
            );
            // the new distance stays far below i32::MAX
            assert((g.width as int) * (g.height as int) <= 512 * 512) by (nonlinear_arith)
                requires 0 < g.width as int <= 512 && 0 < g.height as int <= 512
            ;
            assert(dcur + 1 <= 512 * 512);
        }
        let ghost old_dist = dist@;
        dist.set(ni, dcur + 1);
        queue.push((nx, ny));
        proof {
            assert forall|x: int, y: int|
                g.in_bounds(x, y) && old_dist[g.idx(x, y)] != dist@[g.idx(x, y)]
                implies x == nx as int && y == ny as int by {
                g.lemma_idx_bounds(x, y);
                if g.idx(x, y) == g.idx(nx as int, ny as int) {
                    g.lemma_idx_injective(x, y, nx as int, ny as int);
                }
            }
            // the fresh entry records a one-step extension of the walk that
            // reached (cx, cy)
            assert(reach_n(*g, sx as int, sy as int, cx as int, cy as int, dcur as nat));
            assert(walkable_at(*g, nx as int, ny as int));
            assert(reach_n(*g, sx as int, sy as int, nx as int, ny as int,
                (dcur + 1) as nat)) by {
                assert(exists|px: int, py: int|
                    reach_n(*g, sx as int, sy as int, px, py, dcur as nat)
                        && adjacent(px, py, nx as int, ny as int)) by {
                    assert(reach_n(*g, sx as int, sy as int, cx as int, cy as int,
                        dcur as nat)
                        && adjacent(cx as int, cy as int, nx as int, ny as int));
                }
            }
            assert forall|x: int, y: int|
                g.in_bounds(x, y) && #[trigger] dist@[g.idx(x, y)] != -1
                implies reach_n(*g, sx as int, sy as int, x, y,
                    dist@[g.idx(x, y)] as nat) by {
                g.lemma_idx_bounds(x, y);
                if g.idx(x, y) == g.idx(nx as int, ny as int) {
                    g.lemma_idx_injective(x, y, nx as int, ny as int);
                    assert(dist@[g.idx(x, y)] == dcur + 1);
                } else {
                    assert(dist@[g.idx(x, y)] == old_dist[g.idx(x, y)]);
                }
            }
            // every entry's value stays capped one past the current entry,
            // and existing entries keep their values
            assert forall|k: int| 0 <= k < queue@.len()
                implies dist@[g.idx(#[trigger] queue@[k].0 as int, queue@[k].1 as int)]
                    <= dcur + 1 by {
                if k < queue@.len() - 1 {
                    assert(queue@[k] == old(queue)@[k]);
                    g.lemma_idx_bounds(queue@[k].0 as int, queue@[k].1 as int);
                    if g.idx(queue@[k].0 as int, queue@[k].1 as int)
                        == g.idx(nx as int, ny as int) {
                        g.lemma_idx_injective(queue@[k].0 as int, queue@[k].1 as int,
                            nx as int, ny as int);
                    }
                    assert(dist@[g.idx(queue@[k].0 as int, queue@[k].1 as int)]
                        == old_dist[g.idx(queue@[k].0 as int, queue@[k].1 as int)]);
                } else {
                    assert(queue@[k] == (nx, ny));
                    assert(dist@[g.idx(nx as int, ny as int)] == dcur + 1);
                }
            }
            assert forall|k1: int, k2: int| 0 <= k1 <= k2 < queue@.len()
                implies dist@[g.idx(#[trigger] queue@[k1].0 as int, queue@[k1].1 as int)]
                    <= dist@[g.idx(#[trigger] queue@[k2].0 as int,
                        queue@[k2].1 as int)] by {
                if k2 == queue@.len() - 1 {
                    // old values are capped at the new entry's value
                    assert(dist@[g.idx(queue@[k2].0 as int, queue@[k2].1 as int)]
                        == dcur + 1);
                    if k1 < k2 {
                        assert(queue@[k1] == old(queue)@[k1]);
                        g.lemma_idx_bounds(queue@[k1].0 as int, queue@[k1].1 as int);
                        if g.idx(queue@[k1].0 as int, queue@[k1].1 as int)
                            == g.idx(nx as int, ny as int) {
                            g.lemma_idx_injective(queue@[k1].0 as int,
                                queue@[k1].1 as int, nx as int, ny as int);
                        }
                        assert(dist@[g.idx(queue@[k1].0 as int, queue@[k1].1 as int)]
                            == old_dist[g.idx(queue@[k1].0 as int, queue@[k1].1 as int)]);
                        assert(old_dist[g.idx(queue@[k1].0 as int, queue@[k1].1 as int)]
                            <= dcur + 1);
                    }
                } else {
                    assert(queue@[k1] == old(queue)@[k1]);
                    assert(queue@[k2] == old(queue)@[k2]);
                    g.lemma_idx_bounds(queue@[k1].0 as int, queue@[k1].1 as int);
                    g.lemma_idx_bounds(queue@[k2].0 as int, queue@[k2].1 as int);
                    if g.idx(queue@[k1].0 as int, queue@[k1].1 as int)
                        == g.idx(nx as int, ny as int) {
                        g.lemma_idx_injective(queue@[k1].0 as int, queue@[k1].1 as int,
                            nx as int, ny as int);
                    }
                    if g.idx(queue@[k2].0 as int, queue@[k2].1 as int)
                        == g.idx(nx as int, ny as int) {
                        g.lemma_idx_injective(queue@[k2].0 as int, queue@[k2].1 as int,
                            nx as int, ny as int);
                    }
                    assert(dist@[g.idx(queue@[k1].0 as int, queue@[k1].1 as int)]
                        == old_dist[g.idx(queue@[k1].0 as int, queue@[k1].1 as int)]);
                    assert(dist@[g.idx(queue@[k2].0 as int, queue@[k2].1 as int)]
                        == old_dist[g.idx(queue@[k2].0 as int, queue@[k2].1 as int)]);
                }
            }
            assert forall|k: int| 0 <= k < queue@.len()
                implies #[trigger] dist@[g.idx(queue@[k].0 as int, queue@[k].1 as int)] != -1
                    && dist@[g.idx(queue@[k].0 as int, queue@[k].1 as int)] <= k by {
                if k < queue@.len() - 1 {
                    if g.idx(queue@[k].0 as int, queue@[k].1 as int)
                        == g.idx(nx as int, ny as int) {
                        g.lemma_idx_injective(
                            queue@[k].0 as int, queue@[k].1 as int, nx as int, ny as int);
                    }
                }
            }
            // every discovered tile still has a queue entry
            assert forall|x: int, y: int|
                g.in_bounds(x, y) && #[trigger] dist@[g.idx(x, y)] != -1
                implies exists|k: int| 0 <= k < queue@.len() && queue@[k].0 as int == x
                    && queue@[k].1 as int == y by {
                if x == nx as int && y == ny as int {
                    let k = queue@.len() - 1;
                    assert(queue@[k].0 as int == x && queue@[k].1 as int == y);
                } else {
                    assert(old_dist[g.idx(x, y)] == dist@[g.idx(x, y)]);
                    let k = choose|k: int| 0 <= k < old(queue)@.len()
                        && old(queue)@[k].0 as int == x && old(queue)@[k].1 as int == y;
                    assert(queue@[k].0 as int == x && queue@[k].1 as int == y);
                }
            }
        }
    }
}

/// Run the connectivity repair from (sx, sy) and stamp the selected exit tile
/// as StairsDown: afterwards the map is fully connected from the start, holds
/// exactly one StairsDown tile at the first reachable floor index of maximal
/// shortest-path distance from the start, and the start tile is walkable.
pub fn finalize_exit(g: &mut Grid, sx: i32, sy: i32) -> (exit: usize)
    requires
        old(g).inv(),
        old(g).in_bounds(sx as int, sy as int),
        old(g).tiles@[old(g).idx(sx as int, sy as int)] == TileType::Floor,
        no_stairs(*old(g)),
    ensures
        final(g).inv(),
        final(g).width == old(g).width,
        final(g).height == old(g).height,
        final(g).depth == old(g).depth,
        final(g).tiles@.len() == old(g).tiles@.len(),
        fully_connected(*final(g), sx as int, sy as int),
        single_stairs(*final(g)),
        exit < final(g).tiles@.len(),
        final(g).tiles@[exit as int] == TileType::StairsDown,
        walkable(final(g).tiles@[old(g).idx(sx as int, sy as int)]),
        forall|i: int| 0 <= i < old(g).tiles@.len()
            && #[trigger] final(g).tiles@[i] == TileType::Floor
            ==> old(g).tiles@[i] == TileType::Floor,
        final(g).blocked@.len() == old(g).blocked@.len(),
        forall|i: int| 0 <= i < final(g).blocked@.len()
            ==> final(g).blocked@[i] == (old(g).tiles@[i] == TileType::Wall),
        // the exit is stamped at the first kept floor index of maximal
        // shortest-path distance from the start
        forall|i: int, n: nat|
            #![trigger final(g).tiles@[i],
                idx_reach_within(*old(g), sx as int, sy as int, exit as int, n)]
            0 <= i < final(g).tiles@.len()
                && final(g).tiles@[i] == TileType::Floor
                && idx_reach_within(*old(g), sx as int, sy as int, exit as int, n)
            ==> idx_reach_within(*old(g), sx as int, sy as int, i, n),
        forall|i: int| 0 <= i < exit as int && #[trigger] final(g).tiles@[i] == TileType::Floor
            ==> exists|n: nat| idx_reach_within(*old(g), sx as int, sy as int, i, n)
                && !idx_reach_within(*old(g), sx as int, sy as int, exit as int, n),
{
    let exit = remove_unreachable_areas(g, sx, sy);
    let ghost mid = *g;
    g.tiles.set(exit, TileType::StairsDown);
    proof {
        let gl = *g;
        // the stamp swaps one walkable kind for another, so walkability is
        // unchanged everywhere
        assert forall|a: int, b: int|
            walkable_at(mid, a, b) == walkable_at(gl, a, b) by {
            if mid.in_bounds(a, b) {
                mid.lemma_idx_bounds(a, b);
            }
        }
        assert forall|a: int, b: int| walkable_at(gl, a, b)
            implies reach(gl, sx as int, sy as int, a, b) by {
            assert(walkable_at(mid, a, b));
            assert(reach(mid, sx as int, sy as int, a, b));
            lemma_reach_frame(mid, gl, sx as int, sy as int, a, b);
        }
        assert(single_stairs(gl)) by {
            assert(gl.tiles@[exit as int] == TileType::StairsDown);
            assert(forall|i: int| 0 <= i < gl.tiles@.len() && i != exit
                ==> gl.tiles@[i] == mid.tiles@[i]);
        }
        assert(walkable(gl.tiles@[old(g).idx(sx as int, sy as int)])) by {
            old(g).lemma_idx_bounds(sx as int, sy as int);
        }
        // the stamp turns the exit itself to stairs; every other floor tile
        // of the repaired map survives, so the distance claims carry over
        assert forall|i: int| 0 <= i < gl.tiles@.len() && gl.tiles@[i] == TileType::Floor
            implies mid.tiles@[i] == TileType::Floor && i != exit as int by {}
    }
    exit
}

/// Make sure the map holds at least one floor tile: when generation produced
/// none at all, carve the center tile. A map that already has floor is left
/// untouched.
pub fn ensure_floor_exists(g: &mut Grid)
    requires
        old(g).inv(),
    ensures
        final(g).inv(),
        final(g).width == old(g).width,
        final(g).height == old(g).height,
        final(g).depth == old(g).depth,
        final(g).tiles@.len() == old(g).tiles@.len(),
        exists|x: int, y: int| final(g).in_bounds(x, y)
            && #[trigger] final(g).tiles@[final(g).idx(x, y)] == TileType::Floor,
        no_stairs(*old(g)) ==> no_stairs(*final(g)),
        (exists|x: int, y: int| old(g).in_bounds(x, y)
            && #[trigger] old(g).tiles@[old(g).idx(x, y)] == TileType::Floor)
            ==> final(g).tiles@ == old(g).tiles@,
        forall|i: int| 0 <= i < final(g).tiles@.len()
            && #[trigger] final(g).tiles@[i] != old(g).tiles@[i]
            ==> final(g).tiles@[i] == TileType::Floor,
{
    let w = g.width;
    let h = g.height;
    let mut y: i32 = 0;
    while y < h
        invariant
            g.inv(),
            w == g.width,
            h == g.height,
            0 <= y <= h,
            forall|a: int, b: int| g.in_bounds(a, b) && b < y
                ==> #[trigger] g.tiles@[g.idx(a, b)] != TileType::Floor,
        decreases h - y,
    {
        let mut x: i32 = 0;
        while x < w
            invariant
                g.inv(),
                w == g.width,
                h == g.height,
                0 <= y < h,
                0 <= x <= w,
                forall|a: int, b: int| g.in_bounds(a, b) && b < y
                    ==> #[trigger] g.tiles@[g.idx(a, b)] != TileType::Floor,
                forall|a: int| 0 <= a < x
                    ==> #[trigger] g.tiles@[g.idx(a, y as int)] != TileType::Floor,
            decreases w - x,
        {
            let t = g.get_tile(x, y);
            let is_floor = match t {
                TileType::Floor => true,
                _ => false,
            };
            if is_floor {
                return ;
            }
            x = x + 1;
        }
        y = y + 1;
    }
    // no floor anywhere: carve the center tile
    proof {
        assert forall|x: int, y2: int| g.in_bounds(x, y2)
            implies #[trigger] g.tiles@[g.idx(x, y2)] != TileType::Floor by {}
    }
    proof {
        g.lemma_idx_bounds((w / 2) as int, (h / 2) as int);
    }
    g.set_floor(w / 2, h / 2);
    proof {
        let ci = old(g).idx((w / 2) as int, (h / 2) as int);
        assert(g.tiles@[ci] == TileType::Floor);
        assert(g.in_bounds((w / 2) as int, (h / 2) as int)
            && g.tiles@[g.idx((w / 2) as int, (h / 2) as int)] == TileType::Floor);
        assert forall|i: int| 0 <= i < g.tiles@.len() && i != ci
            implies #[trigger] g.tiles@[i] == old(g).tiles@[i] by {}
    }
}

/// Find a floor tile to start on: scan left from the map center along the
/// middle row; when that row holds none, scan the whole map.
pub fn find_starting_floor(g: &Grid) -> (p: Position)
    requires
        g.inv(),
        exists|x: int, y: int| g.in_bounds(x, y)
            && #[trigger] g.tiles@[g.idx(x, y)] == TileType::Floor,
    ensures
        g.in_bounds(p.x as int, p.y as int),
        g.tiles@[g.idx(p.x as int, p.y as int)] == TileType::Floor,
{
    let w = g.width;
    let h = g.height;
    let cy = h / 2;
    let mut x: i32 = w / 2;
    while x >= 0
        invariant
            g.inv(),
            w == g.width,
            h == g.height,
            x <= w / 2,
            0 <= cy < h,
        decreases x + 1,
    {
        let t = g.get_tile(x, cy);
        let is_floor = match t {
            TileType::Floor => true,
            _ => false,
        };
        if is_floor {
            return Position { x, y: cy };
        }
        x = x - 1;
    }
    // fall back to a whole-map scan; the precondition guarantees a hit
    let mut y: i32 = 0;
    while y < h
        invariant
            g.inv(),
            w == g.width,
            h == g.height,
            0 <= y <= h,
            forall|a: int, b: int| g.in_bounds(a, b) && b < y
                ==> #[trigger] g.tiles@[g.idx(a, b)] != TileType::Floor,
        decreases h - y,
    {
        let mut sx: i32 = 0;
        while sx < w
            invariant
                g.inv(),
                w == g.width,
                h == g.height,
                0 <= y < h,
                0 <= sx <= w,
                forall|a: int, b: int| g.in_bounds(a, b) && b < y
                    ==> #[trigger] g.tiles@[g.idx(a, b)] != TileType::Floor,
                forall|a: int| 0 <= a < sx
                    ==> #[trigger] g.tiles@[g.idx(a, y as int)] != TileType::Floor,
            decreases w - sx,
        {
            let t = g.get_tile(sx, y);
            let is_floor = match t {
                TileType::Floor => true,
                _ => false,
            };
            if is_floor {
                return Position { x: sx, y };
            }
            sx = sx + 1;
        }
        y = y + 1;
    }
    proof {
        let (fx, fy) = choose|x: int, y: int| g.in_bounds(x, y)
            && #[trigger] g.tiles@[g.idx(x, y)] == TileType::Floor;
        assert(g.tiles@[g.idx(fx, fy)] != TileType::Floor);
        assert(false);
    }
    Position { x: 0, y: 0 }
}

/// Turn every StairsDown tile back into floor; nothing else changes.
pub fn clear_stairs(g: &mut Grid)
    requires
        old(g).inv(),
    ensures
        final(g).inv(),
        final(g).width == old(g).width,
        final(g).height == old(g).height,
        final(g).depth == old(g).depth,
        final(g).revealed_tiles@ == old(g).revealed_tiles@,
        final(g).visible_tiles@ == old(g).visible_tiles@,
        no_stairs(*final(g)),
        forall|i: int| 0 <= i < final(g).tiles@.len()
            ==> #[trigger] final(g).tiles@[i] == (
                if old(g).tiles@[i] == TileType::StairsDown {
                    TileType::Floor
                } else {
                    old(g).tiles@[i]
                }),
{
    let n = g.tiles.len();
    let mut i: usize = 0;
    while i < n
        invariant
            g.inv(),
            g.width == old(g).width,
            g.height == old(g).height,
            g.depth == old(g).depth,
            g.revealed_tiles@ == old(g).revealed_tiles@,
            g.visible_tiles@ == old(g).visible_tiles@,
            n == g.tiles@.len(),
            i <= n,
            forall|k: int| 0 <= k < i
                ==> #[trigger] g.tiles@[k] == (
                    if old(g).tiles@[k] == TileType::StairsDown {
                        TileType::Floor
                    } else {
                        old(g).tiles@[k]
                    }),
            forall|k: int| i <= k < n ==> #[trigger] g.tiles@[k] == old(g).tiles@[k],
        decreases n - i,
    {
        let is_marker = match g.tiles[i] {
            TileType::StairsDown => true,
            _ => false,
        };
        if is_marker {
            g.tiles.set(i, TileType::Floor);
        }
        i = i + 1;
    }
}

/// The tile a repair pass leaves behind: reachable floor stays floor,
/// unreachable floor becomes wall, everything else is untouched.
pub open spec fn repaired_tile(t: TileType, discovered: bool) -> TileType {
    if t == TileType::Floor {
        if discovered {
            TileType::Floor
        } else {
            TileType::Wall
        }
    } else {
        t
    }
}

/// The coordinates of a flat tile index.
proof fn lemma_index_coords(m: Grid, i: int) -> (p: (int, int))
    requires
        m.inv(),
        0 <= i < m.tiles@.len(),
    ensures
        m.in_bounds(p.0, p.1),
        i == m.idx(p.0, p.1),
{
    let w = m.width as int;
    let a = i % w;
    let b = i / w;
    vstd::arithmetic::div_mod::lemma_fundamental_div_mod(i, w);
    vstd::arithmetic::div_mod::lemma_mod_bound(i, w);
    assert(m.tiles@.len() == w * (m.height as int)) by (nonlinear_arith)
        requires
            m.tiles@.len() == m.width * m.height,
            w == m.width as int,
    ;
    assert(0 <= b && b < m.height as int) by (nonlinear_arith)
        requires
            w > 0 && 0 <= i && i < w * (m.height as int),
            b == i / w,
    ;
    assert(i == b * w + a) by (nonlinear_arith)
        requires
            i == w * b + a,
    ;
    (a, b)
}

/// Demote every floor tile unreachable from (sx, sy) to wall and return the
/// index of the reachable floor tile most distant from the start (the start
/// itself when no other floor is reachable): among the kept floor tiles it
/// is the first, in flat-index order, whose shortest-path distance from the
/// start is maximal. Afterwards every walkable tile of the map is reachable
/// from the start.
#[verifier::rlimit(60)]
pub fn remove_unreachable_areas(g: &mut Grid, sx: i32, sy: i32) -> (exit: usize)
    requires
        old(g).inv(),
        old(g).in_bounds(sx as int, sy as int),
        old(g).tiles@[old(g).idx(sx as int, sy as int)] == TileType::Floor,
        no_stairs(*old(g)),
    ensures
        final(g).inv(),
        final(g).width == old(g).width,
        final(g).height == old(g).height,
        final(g).depth == old(g).depth,
        final(g).revealed_tiles@ == old(g).revealed_tiles@,
        final(g).visible_tiles@ == old(g).visible_tiles@,
        final(g).tiles@.len() == old(g).tiles@.len(),
        final(g).tiles@[old(g).idx(sx as int, sy as int)] == TileType::Floor,
        no_stairs(*final(g)),
        forall|i: int| 0 <= i < old(g).tiles@.len() && old(g).tiles@[i] != TileType::Floor
            ==> final(g).tiles@[i] == old(g).tiles@[i],
        forall|x: int, y: int| old(g).in_bounds(x, y)
            ==> ((#[trigger] final(g).tiles@[old(g).idx(x, y)] == TileType::Floor)
                <==> (old(g).tiles@[old(g).idx(x, y)] == TileType::Floor
                    && reach(*old(g), sx as int, sy as int, x, y))),
        fully_connected(*final(g), sx as int, sy as int),
        exit < final(g).tiles@.len(),
        final(g).tiles@[exit as int] == TileType::Floor,
        // no kept floor tile lies farther from the start than the exit
        forall|i: int, n: nat|
            #![trigger final(g).tiles@[i],
                idx_reach_within(*old(g), sx as int, sy as int, exit as int, n)]
            0 <= i < final(g).tiles@.len()
                && final(g).tiles@[i] == TileType::Floor
                && idx_reach_within(*old(g), sx as int, sy as int, exit as int, n)
            ==> idx_reach_within(*old(g), sx as int, sy as int, i, n),
        // every kept floor tile before the exit is strictly nearer, so the
        // exit is the first index attaining the maximum
        forall|i: int| 0 <= i < exit as int && #[trigger] final(g).tiles@[i] == TileType::Floor
            ==> exists|n: nat| idx_reach_within(*old(g), sx as int, sy as int, i, n)
                && !idx_reach_within(*old(g), sx as int, sy as int, exit as int, n),
        final(g).blocked@.len() == old(g).blocked@.len(),
        forall|i: int| 0 <= i < final(g).blocked@.len()
            ==> final(g).blocked@[i] == (old(g).tiles@[i] == TileType::Wall),
{
    g.populate_blocked();
    let ghost m0 = *g;
    proof {
        // recomputing the blocked bitmap does not move any tile, so
        // walkability and reachability agree with the input map
        assert forall|a: int, b: int|
            walkable_at(m0, a, b) == walkable_at(*old(g), a, b) by {}
    }
    let dist = g.shortest_distances(sx, sy);
    proof {
        assert forall|x: int, y: int|
            g.in_bounds(x, y) && reach(*old(g), sx as int, sy as int, x, y)
            implies dist@[g.idx(x, y)] != -1 by {
            lemma_reach_frame(*old(g), m0, sx as int, sy as int, x, y);
        }
        assert forall|x: int, y: int|
            g.in_bounds(x, y) && dist@[g.idx(x, y)] != -1
            implies reach(*old(g), sx as int, sy as int, x, y) by {
            lemma_reach_frame(m0, *old(g), sx as int, sy as int, x, y);
        }
    }

    let si = g.xy_idx(sx, sy);
    let mut best_idx: usize = si;
    let mut best_d: i32 = 0;
    let ghost mut bpos: (int, int) = (sx as int, sy as int);

    let w = g.width;
    let h = g.height;
    let mut y: i32 = 0;
    while y < h
        invariant
            g.inv(),
            w == g.width,
            h == g.height,
            0 <= y <= h,
            g.width == m0.width,
            g.height == m0.height,
            g.depth == m0.depth,
            g.revealed_tiles@ == m0.revealed_tiles@,
            g.visible_tiles@ == m0.visible_tiles@,
            g.blocked@ == m0.blocked@,
            g.tiles@.len() == m0.tiles@.len(),
            dist@.len() == m0.tiles@.len(),
            m0.in_bounds(sx as int, sy as int),
            m0.tiles@[m0.idx(sx as int, sy as int)] == TileType::Floor,
            dist@[m0.idx(sx as int, sy as int)] == 0,
            forall|a: int, b: int| m0.in_bounds(a, b)
                ==> -1 <= #[trigger] dist@[m0.idx(a, b)] <= m0.tiles@.len(),
            forall|a: int, b: int| m0.in_bounds(a, b) && #[trigger] dist@[m0.idx(a, b)] != -1
                ==> reach_n(m0, sx as int, sy as int, a, b, dist@[m0.idx(a, b)] as nat),
            forall|i: int| 0 <= i < g.tiles@.len()
                ==> g.tiles@[i] == m0.tiles@[i] || (m0.tiles@[i] == TileType::Floor
                    && g.tiles@[i] == TileType::Wall),
            forall|a: int, b: int| m0.in_bounds(a, b) && b < y
                ==> #[trigger] g.tiles@[m0.idx(a, b)] == repaired_tile(
                    m0.tiles@[m0.idx(a, b)], dist@[m0.idx(a, b)] != -1),
            forall|a: int, b: int| m0.in_bounds(a, b) && b >= y
                ==> #[trigger] g.tiles@[m0.idx(a, b)] == m0.tiles@[m0.idx(a, b)],
            m0.in_bounds(bpos.0, bpos.1),
            best_idx == m0.idx(bpos.0, bpos.1),
            best_idx < m0.tiles@.len(),
            m0.tiles@[best_idx as int] == TileType::Floor,
            dist@[best_idx as int] == best_d,
            best_d >= 0,
            bpos == (sx as int, sy as int) || bpos.1 < y,
            forall|a: int, b: int| m0.in_bounds(a, b) && b < y
                && m0.tiles@[#[trigger] m0.idx(a, b)] == TileType::Floor
                && dist@[m0.idx(a, b)] != -1
                ==> dist@[m0.idx(a, b)] <= best_d
                    && (m0.idx(a, b) < best_idx ==> dist@[m0.idx(a, b)] < best_d),
        decreases h - y,
    {
        let mut x: i32 = 0;
        while x < w
            invariant
                g.inv(),
                w == g.width,
                h == g.height,
                0 <= y < h,
                0 <= x <= w,
                g.width == m0.width,
                g.height == m0.height,
                g.depth == m0.depth,
                g.revealed_tiles@ == m0.revealed_tiles@,
                g.visible_tiles@ == m0.visible_tiles@,
                g.blocked@ == m0.blocked@,
                g.tiles@.len() == m0.tiles@.len(),
                dist@.len() == m0.tiles@.len(),
                m0.in_bounds(sx as int, sy as int),
                m0.tiles@[m0.idx(sx as int, sy as int)] == TileType::Floor,
                dist@[m0.idx(sx as int, sy as int)] == 0,
                forall|a: int, b: int| m0.in_bounds(a, b)
                    ==> -1 <= #[trigger] dist@[m0.idx(a, b)] <= m0.tiles@.len(),
                forall|a: int, b: int| m0.in_bounds(a, b) && #[trigger] dist@[m0.idx(a, b)] != -1
                    ==> reach_n(m0, sx as int, sy as int, a, b, dist@[m0.idx(a, b)] as nat),
                forall|i: int| 0 <= i < g.tiles@.len()
                    ==> g.tiles@[i] == m0.tiles@[i] || (m0.tiles@[i] == TileType::Floor
                        && g.tiles@[i] == TileType::Wall),
                forall|a: int, b: int| m0.in_bounds(a, b) && (b < y || (b == y && a < x))
                    ==> #[trigger] g.tiles@[m0.idx(a, b)] == repaired_tile(
                        m0.tiles@[m0.idx(a, b)], dist@[m0.idx(a, b)] != -1),
                forall|a: int, b: int| m0.in_bounds(a, b) && (b > y || (b == y && a >= x))
                    ==> #[trigger] g.tiles@[m0.idx(a, b)] == m0.tiles@[m0.idx(a, b)],
                m0.in_bounds(bpos.0, bpos.1),
                best_idx == m0.idx(bpos.0, bpos.1),
                best_idx < m0.tiles@.len(),
                m0.tiles@[best_idx as int] == TileType::Floor,
                dist@[best_idx as int] == best_d,
                best_d >= 0,
                bpos == (sx as int, sy as int) || bpos.1 < y || (bpos.1 == y && bpos.0 < x),
                forall|a: int, b: int| m0.in_bounds(a, b) && (b < y || (b == y && a < x))
                    && m0.tiles@[#[trigger] m0.idx(a, b)] == TileType::Floor
                    && dist@[m0.idx(a, b)] != -1
                    ==> dist@[m0.idx(a, b)] <= best_d
                        && (m0.idx(a, b) < best_idx ==> dist@[m0.idx(a, b)] < best_d),
            decreases w - x,
        {
            let ghost gpre = *g;
            let i = g.xy_idx(x, y);
            proof {
                assert(i == m0.idx(x as int, y as int));
            }
            let t = g.tiles[i];
            let is_floor = match t {
                TileType::Floor => true,
                _ => false,
            };
            if is_floor {
                let d = dist[i];
                if d == -1 {
                    g.tiles.set(i, TileType::Wall);
                    proof {
                        assert forall|a: int, b: int|
                            m0.in_bounds(a, b) && (a != x as int || b != y as int)
                            implies m0.idx(a, b) != m0.idx(x as int, y as int) by {
                            if m0.idx(a, b) == m0.idx(x as int, y as int) {
                                m0.lemma_idx_injective(a, b, x as int, y as int);
                            }
                        }
                    }
                } else if d > best_d {
                    best_d = d;
                    best_idx = i;
                    proof {
                        bpos = (x as int, y as int);
                    }
                } else {
                    proof {
                        // the running best stays the first index attaining
                        // the maximal distance: an equal distance cannot
                        // appear at an earlier index than the recorded best
                        if i < best_idx && d == best_d {
                            if bpos == (sx as int, sy as int) {
                                // only the start lies at distance zero
                                assert(best_d == 0);
                                assert(m0.in_bounds(x as int, y as int));
                                assert(dist@[m0.idx(x as int, y as int)] == d);
                                assert(reach_n(m0, sx as int, sy as int,
                                    x as int, y as int,
                                    dist@[m0.idx(x as int, y as int)] as nat));
                                assert(x as int == sx as int && y as int == sy as int);
                                assert(false);
                            } else {
                                // the best was recorded at an earlier scan
                                // position, hence at a smaller flat index
                                assert(best_idx < i) by (nonlinear_arith)
                                    requires
                                        best_idx
                                            == bpos.1 * (m0.width as int) + bpos.0,
                                        i as int
                                            == (y as int) * (m0.width as int) + x as int,
                                        bpos.1 < y as int
                                            || (bpos.1 == y as int && bpos.0 < x as int),
                                        0 <= bpos.0 && bpos.0 < m0.width as int,
                                        0 <= x as int && (x as int) < m0.width as int,
                                ;
                                assert(false);
                            }
                        }
                    }
                }
            }
            proof {
                assert(g.tiles@[m0.idx(x as int, y as int)] == repaired_tile(
                    m0.tiles@[m0.idx(x as int, y as int)],
                    dist@[m0.idx(x as int, y as int)] != -1,
                ));
                assert forall|a: int, b: int|
                    m0.in_bounds(a, b) && (b < y as int || (b == y as int && a < x as int + 1))
                    implies #[trigger] g.tiles@[m0.idx(a, b)] == repaired_tile(
                        m0.tiles@[m0.idx(a, b)], dist@[m0.idx(a, b)] != -1) by {
                    if a != x as int || b != y as int {
                        m0.lemma_idx_bounds(a, b);
                        if m0.idx(a, b) == m0.idx(x as int, y as int) {
                            m0.lemma_idx_injective(a, b, x as int, y as int);
                        }
                        assert(m0.idx(a, b) != m0.idx(x as int, y as int));
                        assert(gpre.tiles@[m0.idx(a, b)] == repaired_tile(
                            m0.tiles@[m0.idx(a, b)], dist@[m0.idx(a, b)] != -1));
                        assert(g.tiles@[m0.idx(a, b)] == gpre.tiles@[m0.idx(a, b)]);
                    }
                }
                assert forall|a: int, b: int|
                    m0.in_bounds(a, b) && (b > y as int || (b == y as int && a >= x as int + 1))
                    implies #[trigger] g.tiles@[m0.idx(a, b)] == m0.tiles@[m0.idx(a, b)] by {
                    m0.lemma_idx_bounds(a, b);
                    if m0.idx(a, b) == m0.idx(x as int, y as int) {
                        m0.lemma_idx_injective(a, b, x as int, y as int);
                    }
                    assert(m0.idx(a, b) != m0.idx(x as int, y as int));
                    assert(gpre.tiles@[m0.idx(a, b)] == m0.tiles@[m0.idx(a, b)]);
                    assert(g.tiles@[m0.idx(a, b)] == gpre.tiles@[m0.idx(a, b)]);
                }
            }
            x = x + 1;
        }
        y = y + 1;
    }

    proof {
        let gl = *g;
        let og = *old(g);
        // every tile now carries its repaired value
        assert forall|a: int, b: int| og.in_bounds(a, b)
            implies #[trigger] gl.tiles@[og.idx(a, b)] == repaired_tile(
                og.tiles@[og.idx(a, b)], dist@[og.idx(a, b)] != -1) by {
            assert(m0.in_bounds(a, b) && b < h);
            assert(gl.tiles@[m0.idx(a, b)] == repaired_tile(
                m0.tiles@[m0.idx(a, b)], dist@[m0.idx(a, b)] != -1));
        }
        // walkability agrees between the input map and the analyzed copy
        assert forall|a: int, b: int|
            walkable_at(og, a, b) == walkable_at(m0, a, b) by {}
        // reachability transfers between them
        assert forall|a: int, b: int| og.in_bounds(a, b)
            implies ((#[trigger] dist@[og.idx(a, b)] != -1)
                <==> reach(og, sx as int, sy as int, a, b)) by {
            assert(m0.in_bounds(a, b));
            assert(dist@[m0.idx(a, b)] == dist@[og.idx(a, b)]);
            if dist@[m0.idx(a, b)] != -1 {
                assert(reach(m0, sx as int, sy as int, a, b));
                lemma_reach_frame(m0, og, sx as int, sy as int, a, b);
            }
            if reach(og, sx as int, sy as int, a, b) {
                lemma_reach_frame(og, m0, sx as int, sy as int, a, b);
                assert(reach(m0, sx as int, sy as int, a, b));
            }
        }
        // no stairs anywhere: the pass only writes walls
        assert forall|i: int| 0 <= i < gl.tiles@.len()
            implies gl.tiles@[i] != TileType::StairsDown by {
            assert(gl.tiles@[i] == m0.tiles@[i] || (m0.tiles@[i] == TileType::Floor
                && gl.tiles@[i] == TileType::Wall));
        }
        // the start tile survives
        assert(gl.tiles@[og.idx(sx as int, sy as int)] == TileType::Floor);
        // the chosen exit survives
        assert(gl.tiles@[best_idx as int] == TileType::Floor) by {
            assert(m0.in_bounds(bpos.0, bpos.1) && bpos.1 < h);
            assert(gl.tiles@[m0.idx(bpos.0, bpos.1)] == repaired_tile(
                m0.tiles@[m0.idx(bpos.0, bpos.1)], dist@[m0.idx(bpos.0, bpos.1)] != -1));
        }
        // full connectivity of the repaired map
        assert(walkable_at(gl, sx as int, sy as int)) by {
            og.lemma_idx_bounds(sx as int, sy as int);
        }
        assert forall|a: int, b: int|
            walkable_at(og, a, b) && reach(og, sx as int, sy as int, a, b)
            implies walkable_at(gl, a, b) by {
            og.lemma_idx_bounds(a, b);
            assert(og.tiles@[og.idx(a, b)] != TileType::StairsDown);
            assert(og.tiles@[og.idx(a, b)] == TileType::Floor);
            assert(dist@[og.idx(a, b)] != -1);
        }
        assert forall|a: int, b: int| walkable_at(gl, a, b)
            implies reach(gl, sx as int, sy as int, a, b) by {
            og.lemma_idx_bounds(a, b);
            assert(gl.tiles@[og.idx(a, b)] == repaired_tile(
                og.tiles@[og.idx(a, b)], dist@[og.idx(a, b)] != -1));
            assert(gl.tiles@[og.idx(a, b)] == TileType::Floor);
            assert(reach(og, sx as int, sy as int, a, b));
            lemma_repair_preserves_reach(og, gl, sx as int, sy as int, a, b);
        }
        // no kept floor tile lies farther from the start than the chosen exit
        assert forall|i: int, n: nat|
            0 <= i < gl.tiles@.len() && gl.tiles@[i] == TileType::Floor
                && idx_reach_within(og, sx as int, sy as int, best_idx as int, n)
            implies idx_reach_within(og, sx as int, sy as int, i, n) by {
            let pr = lemma_index_coords(m0, i);
            let a = pr.0;
            let b = pr.1;
            assert(gl.tiles@[og.idx(a, b)] == repaired_tile(
                og.tiles@[og.idx(a, b)], dist@[og.idx(a, b)] != -1));
            assert(m0.tiles@[m0.idx(a, b)] == TileType::Floor
                && dist@[m0.idx(a, b)] != -1);
            // the witness walk to the exit bounds the exit's distance
            let (ex, ey) = choose|ex: int, ey: int| og.in_bounds(ex, ey)
                && best_idx as int == og.idx(ex, ey)
                && reach_n(og, sx as int, sy as int, ex, ey, n);
            lemma_reach_n_frame(og, m0, sx as int, sy as int, ex, ey, n);
            assert(dist@[m0.idx(ex, ey)] <= n);
            m0.lemma_idx_injective(ex, ey, bpos.0, bpos.1);
            assert(best_d <= n);
            assert(dist@[m0.idx(a, b)] <= best_d);
            // extend this tile's recorded walk up to the same budget
            assert(reach_n(m0, sx as int, sy as int, a, b, dist@[m0.idx(a, b)] as nat));
            lemma_reach_n_mono(m0, sx as int, sy as int, a, b,
                dist@[m0.idx(a, b)] as nat, n);
            lemma_reach_n_frame(m0, og, sx as int, sy as int, a, b, n);
            assert(og.in_bounds(a, b) && i == og.idx(a, b)
                && reach_n(og, sx as int, sy as int, a, b, n));
        }
        // every kept floor tile before the exit is strictly nearer
        assert forall|i: int| 0 <= i < best_idx as int && gl.tiles@[i] == TileType::Floor
            implies exists|n: nat| idx_reach_within(og, sx as int, sy as int, i, n)
                && !idx_reach_within(og, sx as int, sy as int, best_idx as int, n) by {
            let pr = lemma_index_coords(m0, i);
            let a = pr.0;
            let b = pr.1;
            assert(gl.tiles@[og.idx(a, b)] == repaired_tile(
                og.tiles@[og.idx(a, b)], dist@[og.idx(a, b)] != -1));
            assert(m0.tiles@[m0.idx(a, b)] == TileType::Floor
                && dist@[m0.idx(a, b)] != -1);
            let n0 = dist@[m0.idx(a, b)] as nat;
            assert(dist@[m0.idx(a, b)] < best_d);
            assert(reach_n(m0, sx as int, sy as int, a, b, n0));
            lemma_reach_n_frame(m0, og, sx as int, sy as int, a, b, n0);
            assert(idx_reach_within(og, sx as int, sy as int, i, n0)) by {
                assert(og.in_bounds(a, b) && i == og.idx(a, b)
                    && reach_n(og, sx as int, sy as int, a, b, n0));
            }
            assert(!idx_reach_within(og, sx as int, sy as int, best_idx as int, n0)) by {
                if idx_reach_within(og, sx as int, sy as int, best_idx as int, n0) {
                    let (ex, ey) = choose|ex: int, ey: int| og.in_bounds(ex, ey)
                        && best_idx as int == og.idx(ex, ey)
                        && reach_n(og, sx as int, sy as int, ex, ey, n0);
                    lemma_reach_n_frame(og, m0, sx as int, sy as int, ex, ey, n0);
                    assert(dist@[m0.idx(ex, ey)] <= n0);
                    m0.lemma_idx_injective(ex, ey, bpos.0, bpos.1);
                    assert(dist@[best_idx as int] == best_d);
                    assert(false);
                }
            }
        }
    }
    best_idx
}

} // verus!
