//! The wave-function-collapse solver: fill an empty chunk grid one cell at a
//! time, preferring the cell with the most already-filled neighbors, choosing
//! uniformly among the patterns every filled neighbor accepts, and signaling
//! a contradiction when that intersection is empty. A constraint set holding
//! a pattern with no exits never reaches a contradiction, because that
//! pattern fits everywhere.

use vstd::prelude::*;
use crate::grid::Grid;
use crate::rng::{RandomStream, roll_of};
use crate::tile::TileType;
use crate::map_chunk::{MapChunk, chunk_has_exits, chunk_fits, constraints_ok};
use crate::map_chunk::tile_index_in_chunk;

verus! {

/// Whether a value occurs in a list of pattern indices.
fn list_contains(v: &Vec<usize>, x: usize) -> (r: bool)
    ensures
        r == v@.contains(x),
{
    let n = v.len();
    let mut k: usize = 0;
    while k < n
        invariant
            n == v@.len(),
            k <= n,
            forall|q: int| 0 <= q < k ==> v@[q] != x,
        decreases n - k,
    {
        if v[k] == x {
            proof {
                assert(v@[k as int] == x);
            }
            return true;
        }
        k = k + 1;
    }
    proof {
        if v@.contains(x) {
            let q = choose|q: int| 0 <= q < v@.len() && v@[q] == x;
        }
    }
    false
}

/// A sequence of remaining work items with pairwise-distinct cell indices
/// below `n` cannot hold more than `n` entries.
proof fn lemma_remaining_len_bound(q: Seq<(usize, i32)>, n: nat)
    requires
        forall|k: int| 0 <= k < q.len() ==> (#[trigger] q[k]).0 < n,
        forall|k1: int, k2: int| 0 <= k1 < k2 < q.len() ==> q[k1].0 != q[k2].0,
    ensures
        q.len() <= n,
{
    let f = |p: (usize, i32)| p.0 as int;
    let s = q.map_values(f);
    assert forall|k1: int, k2: int| 0 <= k1 < k2 < s.len() implies s[k1] != s[k2] by {}
    assert(s.no_duplicates());
    s.unique_seq_to_set();
    let range = vstd::set_lib::set_int_range(0, n as int);
    vstd::set_lib::lemma_int_range(0, n as int);
    assert forall|e: int| s.to_set().contains(e) implies range.contains(e) by {
        let k = choose|k: int| 0 <= k < s.len() && s[k] == e;
    }
    vstd::set_lib::lemma_len_subset(s.to_set(), range);
}

/// The per-attempt solver state: the constraint library, a partially filled
/// chunk grid, the worklist of unfilled cells annotated with filled-neighbor
/// counts, and the flag that goes false exactly on a contradiction.
pub struct Solver {
    pub constraints: Vec<MapChunk>,
    pub chunk_size: i32,
    pub chunks: Vec<Option<usize>>,
    pub chunks_x: usize,
    pub chunks_y: usize,
    pub remaining: Vec<(usize, i32)>,
    pub possible: bool,
}

impl Solver {
    /// Structural well-formedness of everything but the worklist: a valid
    /// constraint library and a chunk grid of the stated dimensions whose
    /// filled cells name library patterns.
    pub open spec fn core_inv(&self) -> bool {
        &&& 1 <= self.chunk_size <= 64
        &&& 1 <= self.constraints@.len() <= 100000
        &&& constraints_ok(self.constraints@, self.chunk_size as int)
        &&& 1 <= self.chunks_x <= 512
        &&& 1 <= self.chunks_y <= 512
        &&& self.chunks@.len() == self.chunks_x * self.chunks_y
        &&& forall|i: int| 0 <= i < self.chunks@.len() && (#[trigger] self.chunks@[i]) is Some
            ==> (self.chunks@[i]->Some_0 as int) < self.constraints@.len()
    }

    /// [`Self::core_inv`], and the worklist holds each unfilled cell
    /// exactly once.
    pub open spec fn inv(&self) -> bool {
        &&& self.core_inv()
        &&& forall|k: int| 0 <= k < self.remaining@.len()
            ==> ((#[trigger] self.remaining@[k]).0 as int) < self.chunks@.len()
        &&& forall|k: int| 0 <= k < self.remaining@.len()
            ==> self.chunks@[(#[trigger] self.remaining@[k]).0 as int] is None
        &&& forall|k1: int, k2: int| 0 <= k1 < k2 < self.remaining@.len()
            ==> self.remaining@[k1].0 != self.remaining@[k2].0
        &&& forall|i: int| 0 <= i < self.chunks@.len() && (#[trigger] self.chunks@[i]) is None
            ==> exists|k: int| 0 <= k < self.remaining@.len()
                && (#[trigger] self.remaining@[k]).0 == i
    }

    /// The solver's chunk grid tiles a map of these dimensions.
    pub open spec fn fits_map(&self, m: Grid) -> bool {
        &&& self.chunks_x * self.chunk_size <= m.width
        &&& self.chunks_y * self.chunk_size <= m.height
    }

    /// One when chunk cell (x, y) exists and is filled, zero otherwise.
    pub open spec fn filled_at(&self, x: int, y: int) -> int {
        if 0 <= x < self.chunks_x && 0 <= y < self.chunks_y
            && self.chunks@[y * self.chunks_x + x] is Some {
            1int
        } else {
            0
        }
    }

    /// How many of chunk cell (x, y)'s four neighbors are filled.
    pub open spec fn filled_neighbors(&self, x: int, y: int) -> int {
        self.filled_at(x - 1, y) + self.filled_at(x + 1, y)
            + self.filled_at(x, y - 1) + self.filled_at(x, y + 1)
    }

    /// The filled neighbor at flat cell index `cell` accepts pattern `p`
    /// across direction `d`: `p` stands on its compatibility list for `d`.
    pub open spec fn neighbor_accepts(&self, cell: int, d: int, p: usize) -> bool {
        self.constraints@[self.chunks@[cell]->Some_0 as int].compatible_with@[d]@.contains(p)
    }

    /// The filled-neighbor count of the cell the k-th worklist entry names.
    pub open spec fn entry_neighbors(&self, k: int) -> int {
        self.filled_neighbors(
            self.remaining@[k].0 as int % self.chunks_x as int,
            self.remaining@[k].0 as int / self.chunks_x as int,
        )
    }

    /// Assembling [`Self::stamped_step`] from the facts one iteration
    /// establishes: the gathered option lists carry each filled neighbor's
    /// facing compatibility list, and the stamped pattern stands on all of
    /// them.
    proof fn lemma_stamped_step(
        os: Solver,
        post: Solver,
        m0: Grid,
        m1: Grid,
        ri: int,
        options: Seq<Vec<usize>>,
        p: usize,
        tn: i32,
    )
        requires
            0 <= ri < os.remaining@.len(),
            os.chunks_x >= 1,
            os.chunk_size == post.chunk_size,
            (os.remaining@[ri].0 as int) < os.chunks@.len(),
            os.chunks@[os.remaining@[ri].0 as int] is None,
            post.chunks@ == os.chunks@.update(
                os.remaining@[ri].0 as int, Option::Some(p)),
            (p as int) < os.constraints@.len(),
            tn == os.filled_neighbors(
                os.remaining@[ri].0 as int % os.chunks_x as int,
                os.remaining@[ri].0 as int / os.chunks_x as int,
            ),
            tn != 0 ==> forall|l: int| 0 <= l < options.len()
                ==> (#[trigger] options[l])@.contains(p),
            ({
                let cw = os.chunks_x as int;
                let ci = os.remaining@[ri].0 as int;
                let cx = ci % cw;
                let cy = ci / cw;
                let cs = os.chunk_size as int;
                &&& (tn != 0 && os.filled_at(cx - 1, cy) == 1
                    ==> exists|l: int| 0 <= l < options.len()
                        && (#[trigger] options[l])@ == os.constraints@[
                            os.chunks@[ci - 1]->Some_0 as int].compatible_with@[3]@)
                &&& (tn != 0 && os.filled_at(cx + 1, cy) == 1
                    ==> exists|l: int| 0 <= l < options.len()
                        && (#[trigger] options[l])@ == os.constraints@[
                            os.chunks@[ci + 1]->Some_0 as int].compatible_with@[2]@)
                &&& (tn != 0 && os.filled_at(cx, cy - 1) == 1
                    ==> exists|l: int| 0 <= l < options.len()
                        && (#[trigger] options[l])@ == os.constraints@[
                            os.chunks@[ci - cw]->Some_0 as int].compatible_with@[1]@)
                &&& (tn != 0 && os.filled_at(cx, cy + 1) == 1
                    ==> exists|l: int| 0 <= l < options.len()
                        && (#[trigger] options[l])@ == os.constraints@[
                            os.chunks@[ci + cw]->Some_0 as int].compatible_with@[0]@)
                &&& forall|dx: int, dy: int| 0 <= dx < cs && 0 <= dy < cs
                    ==> m1.tiles@[#[trigger] m0.idx(cx * cs + dx, cy * cs + dy)]
                        == os.constraints@[p as int].pattern@[dy * cs + dx]
                &&& forall|a: int, b: int| m0.in_bounds(a, b)
                    && !(cx * cs <= a < cx * cs + cs && cy * cs <= b < cy * cs + cs)
                    ==> m1.tiles@[#[trigger] m0.idx(a, b)] == m0.tiles@[m0.idx(a, b)]
            }),
        ensures
            os.stamped_step(post, m0, m1, ri),
    {
        let cw = os.chunks_x as int;
        let ci = os.remaining@[ri].0 as int;
        let cx = ci % cw;
        let cy = ci / cw;
        assert(post.chunks@[ci] == Option::Some(p));
        if tn == 0 {
            assert(os.filled_at(cx - 1, cy) == 0 && os.filled_at(cx + 1, cy) == 0
                && os.filled_at(cx, cy - 1) == 0 && os.filled_at(cx, cy + 1) == 0);
        } else {
            if os.filled_at(cx - 1, cy) == 1 {
                let l = choose|l: int| 0 <= l < options.len()
                    && (#[trigger] options[l])@ == os.constraints@[
                        os.chunks@[ci - 1]->Some_0 as int].compatible_with@[3]@;
                assert(options[l]@.contains(p));
            }
            if os.filled_at(cx + 1, cy) == 1 {
                let l = choose|l: int| 0 <= l < options.len()
                    && (#[trigger] options[l])@ == os.constraints@[
                        os.chunks@[ci + 1]->Some_0 as int].compatible_with@[2]@;
                assert(options[l]@.contains(p));
            }
            if os.filled_at(cx, cy - 1) == 1 {
                let l = choose|l: int| 0 <= l < options.len()
                    && (#[trigger] options[l])@ == os.constraints@[
                        os.chunks@[ci - cw]->Some_0 as int].compatible_with@[1]@;
                assert(options[l]@.contains(p));
            }
            if os.filled_at(cx, cy + 1) == 1 {
                let l = choose|l: int| 0 <= l < options.len()
                    && (#[trigger] options[l])@ == os.constraints@[
                        os.chunks@[ci + cw]->Some_0 as int].compatible_with@[0]@;
                assert(options[l]@.contains(p));
            }
        }
    }

    /// One solver step stamped the cell `ci` the `ri`-th worklist entry
    /// named, with a pattern every filled neighbor accepts across the facing
    /// direction, and wrote that pattern's tiles into the cell's map window,
    /// touching nothing else.
    pub open spec fn stamped_step(
        &self,
        post: Solver,
        m0: Grid,
        m1: Grid,
        ri: int,
    ) -> bool {
        let cw = self.chunks_x as int;
        let ci = self.remaining@[ri].0 as int;
        let cx = ci % cw;
        let cy = ci / cw;
        let cs = self.chunk_size as int;
        let p = post.chunks@[ci]->Some_0;
        &&& self.chunks@[ci] is None
        &&& post.chunks@ == self.chunks@.update(ci, post.chunks@[ci])
        &&& post.chunks@[ci] is Some
        &&& (p as int) < self.constraints@.len()
        &&& (self.filled_at(cx - 1, cy) == 1 ==> self.neighbor_accepts(ci - 1, 3, p))
        &&& (self.filled_at(cx + 1, cy) == 1 ==> self.neighbor_accepts(ci + 1, 2, p))
        &&& (self.filled_at(cx, cy - 1) == 1 ==> self.neighbor_accepts(ci - cw, 1, p))
        &&& (self.filled_at(cx, cy + 1) == 1 ==> self.neighbor_accepts(ci + cw, 0, p))
        &&& forall|dx: int, dy: int| 0 <= dx < cs && 0 <= dy < cs
            ==> m1.tiles@[#[trigger] m0.idx(cx * cs + dx, cy * cs + dy)]
                == self.constraints@[p as int].pattern@[dy * cs + dx]
        &&& forall|a: int, b: int| m0.in_bounds(a, b)
            && !(cx * cs <= a < cx * cs + cs && cy * cs <= b < cy * cs + cs)
            ==> m1.tiles@[#[trigger] m0.idx(a, b)] == m0.tiles@[m0.idx(a, b)]
    }

    /// A fresh solver over an all-empty chunk grid sized to the map: every
    /// cell is unfilled, and the worklist lists every cell index once, in
    /// order, each annotated with a neighbor count of zero.
    pub fn new(constraints: Vec<MapChunk>, chunk_size: i32, map: &Grid) -> (s: Solver)
        requires
            map.inv(),
            1 <= chunk_size <= 64,
            chunk_size <= map.width,
            chunk_size <= map.height,
            1 <= constraints@.len() <= 100000,
            constraints_ok(constraints@, chunk_size as int),
        ensures
            s.inv(),
            s.fits_map(*map),
            s.possible,
            s.constraints@ == constraints@,
            s.chunk_size == chunk_size,
            s.chunks_x == map.width as int / chunk_size as int,
            s.chunks_y == map.height as int / chunk_size as int,
            s.remaining@.len() == s.chunks@.len(),
            forall|i: int| 0 <= i < s.chunks@.len() ==> (#[trigger] s.chunks@[i]) is None,
            forall|k: int| 0 <= k < s.remaining@.len()
                ==> (#[trigger] s.remaining@[k]) == (k as usize, 0i32),
    {
        proof {
            assert(map.width as int / chunk_size as int >= 1
                && map.height as int / chunk_size as int >= 1
                && map.width as int / chunk_size as int <= 512
                && map.height as int / chunk_size as int <= 512
                && (map.width as int / chunk_size as int) * chunk_size <= map.width
                && (map.height as int / chunk_size as int) * chunk_size <= map.height)
                by (nonlinear_arith)
                requires
                    1 <= chunk_size <= 64,
                    chunk_size <= map.width,
                    chunk_size <= map.height,
                    map.width <= 512,
                    map.height <= 512,
            ;
        }
        let chunks_x = (map.width / chunk_size) as usize;
        let chunks_y = (map.height / chunk_size) as usize;
        proof {
            assert(chunks_x * chunks_y <= 512 * 512) by (nonlinear_arith)
                requires 1 <= chunks_x <= 512 && 1 <= chunks_y <= 512
            ;
            assert((chunks_x as int) * (chunk_size as int) <= map.width
                && (chunks_y as int) * (chunk_size as int) <= map.height);
        }
        let total = chunks_x * chunks_y;
        let mut chunks: Vec<Option<usize>> = Vec::new();
        let mut remaining: Vec<(usize, i32)> = Vec::new();
        let mut i: usize = 0;
        while i < total
            invariant
                i <= total,
                chunks@.len() == i,
                remaining@.len() == i,
                forall|k: int| 0 <= k < i ==> (#[trigger] chunks@[k]) is None,
                forall|k: int| 0 <= k < i ==> (#[trigger] remaining@[k]) == (k as usize, 0i32),
            decreases total - i,
        {
            chunks.push(Option::None);
            remaining.push((i, 0));
            i = i + 1;
        }
        proof {
            assert forall|i2: int| 0 <= i2 < chunks@.len() && (#[trigger] chunks@[i2]) is None
                implies exists|k: int| 0 <= k < remaining@.len()
                    && (#[trigger] remaining@[k]).0 == i2 by {
                assert((remaining@[i2]).0 == i2);
            }
        }
        Solver {
            constraints,
            chunk_size,
            chunks,
            chunks_x,
            chunks_y,
            remaining,
            possible: true,
        }
    }

    /// Empty the chunk grid and refill the worklist for a fresh attempt over
    /// a map of the same dimensions.
    pub fn reset(&mut self, map: &Grid)
        requires
            old(self).core_inv(),
            map.inv(),
            old(self).fits_map(*map),
        ensures
            final(self).inv(),
            final(self).fits_map(*map),
            final(self).possible,
            final(self).constraints@ == old(self).constraints@,
            final(self).chunk_size == old(self).chunk_size,
            final(self).chunks_x == old(self).chunks_x,
            final(self).chunks_y == old(self).chunks_y,
            final(self).remaining@.len() == final(self).chunks@.len(),
            forall|i: int| 0 <= i < final(self).chunks@.len()
                ==> (#[trigger] final(self).chunks@[i]) is None,
            forall|k: int| 0 <= k < final(self).remaining@.len()
                ==> (#[trigger] final(self).remaining@[k]) == (k as usize, 0i32),
    {
        proof {
            assert(self.chunks_x * self.chunks_y <= 512 * 512) by (nonlinear_arith)
                requires self.chunks_x <= 512 && self.chunks_y <= 512
            ;
        }
        let total = self.chunks_x * self.chunks_y;
        let mut chunks: Vec<Option<usize>> = Vec::new();
        let mut remaining: Vec<(usize, i32)> = Vec::new();
        let mut i: usize = 0;
        while i < total
            invariant
                i <= total,
                chunks@.len() == i,
                remaining@.len() == i,
                forall|k: int| 0 <= k < i ==> (#[trigger] chunks@[k]) is None,
                forall|k: int| 0 <= k < i ==> (#[trigger] remaining@[k]) == (k as usize, 0i32),
            decreases total - i,
        {
            chunks.push(Option::None);
            remaining.push((i, 0));
            i = i + 1;
        }
        proof {
            assert forall|i2: int| 0 <= i2 < chunks@.len() && (#[trigger] chunks@[i2]) is None
                implies exists|k: int| 0 <= k < remaining@.len()
                    && (#[trigger] remaining@[k]).0 == i2 by {
                assert((remaining@[i2]).0 == i2);
            }
        }
        self.chunks = chunks;
        self.remaining = remaining;
        self.possible = true;
    }

    /// The flat index of chunk cell (x, y).
    pub fn chunk_index(&self, x: usize, y: usize) -> (i: usize)
        requires
            self.core_inv(),
            x < self.chunks_x,
            y < self.chunks_y,
        ensures
            i == y * self.chunks_x + x,
            i < self.chunks@.len(),
    {
        proof {
            assert(y * self.chunks_x + x < self.chunks_x * self.chunks_y
                && self.chunks_x * self.chunks_y <= 512 * 512) by (nonlinear_arith)
                requires
                    x < self.chunks_x,
                    y < self.chunks_y,
                    self.chunks_x <= 512,
                    self.chunks_y <= 512,
            ;
            assert(self.chunks@.len() == self.chunks_x * self.chunks_y);
        }
        (y * self.chunks_x) + x
    }

    /// 1 when the cell is filled, 0 when it is empty.
    pub fn identify_chunk(&self, index: usize) -> (r: i32)
        requires
            self.core_inv(),
            index < self.chunks@.len(),
        ensures
            r == if self.chunks@[index as int] is Some { 1int } else { 0 },
    {
        match self.chunks[index] {
            Option::None => 0,
            Option::Some(_) => 1,
        }
    }

    /// How many of the cell's 4 neighbors are already filled.
    pub fn count_neighbors(&self, chunk_x: usize, chunk_y: usize) -> (r: i32)
        requires
            self.core_inv(),
            chunk_x < self.chunks_x,
            chunk_y < self.chunks_y,
        ensures
            0 <= r <= 4,
            r == self.filled_neighbors(chunk_x as int, chunk_y as int),
    {
        let mut neighbors: i32 = 0;
        if chunk_x > 0 {
            let left = self.chunk_index(chunk_x - 1, chunk_y);
            neighbors = neighbors + self.identify_chunk(left);
        }
        if chunk_x < self.chunks_x - 1 {
            let right = self.chunk_index(chunk_x + 1, chunk_y);
            neighbors = neighbors + self.identify_chunk(right);
        }
        if chunk_y > 0 {
            let up = self.chunk_index(chunk_x, chunk_y - 1);
            neighbors = neighbors + self.identify_chunk(up);
        }
        if chunk_y < self.chunks_y - 1 {
            let down = self.chunk_index(chunk_x, chunk_y + 1);
            neighbors = neighbors + self.identify_chunk(down);
        }
        neighbors
    }

    /// Refresh each worklist entry's filled-neighbor count; reports whether
    /// any entry now has a filled neighbor.
    pub fn populate_neighbors_for_remaining_items(
        &self,
        remain_copy: &mut Vec<(usize, i32)>,
    ) -> (has_neighbors: bool)
        requires
            self.core_inv(),
            forall|k: int| 0 <= k < old(remain_copy)@.len()
                ==> ((#[trigger] old(remain_copy)@[k]).0 as int) < self.chunks@.len(),
        ensures
            final(remain_copy)@.len() == old(remain_copy)@.len(),
            forall|k: int| 0 <= k < final(remain_copy)@.len()
                ==> (#[trigger] final(remain_copy)@[k]).0 == old(remain_copy)@[k].0,
            forall|k: int| 0 <= k < final(remain_copy)@.len()
                ==> 0 <= (#[trigger] final(remain_copy)@[k]).1 <= 4,
            // each entry carries its cell's true filled-neighbor count
            forall|k: int| 0 <= k < final(remain_copy)@.len()
                ==> (#[trigger] final(remain_copy)@[k]).1 == self.filled_neighbors(
                    old(remain_copy)@[k].0 as int % self.chunks_x as int,
                    old(remain_copy)@[k].0 as int / self.chunks_x as int,
                ),
            has_neighbors == exists|k: int| 0 <= k < final(remain_copy)@.len()
                && (#[trigger] final(remain_copy)@[k]).1 > 0,
    {
        let mut has_neighbors = false;
        let n = remain_copy.len();
        let mut k: usize = 0;
        while k < n
            invariant
                self.core_inv(),
                n == remain_copy@.len(),
                k <= n,
                forall|q: int| 0 <= q < n
                    ==> ((#[trigger] remain_copy@[q]).0 as int) < self.chunks@.len(),
                forall|q: int| 0 <= q < n
                    ==> (#[trigger] remain_copy@[q]).0 == old(remain_copy)@[q].0,
                forall|q: int| 0 <= q < k ==> 0 <= (#[trigger] remain_copy@[q]).1 <= 4,
                forall|q: int| 0 <= q < k
                    ==> (#[trigger] remain_copy@[q]).1 == self.filled_neighbors(
                        old(remain_copy)@[q].0 as int % self.chunks_x as int,
                        old(remain_copy)@[q].0 as int / self.chunks_x as int,
                    ),
                has_neighbors == exists|q: int| 0 <= q < k
                    && (#[trigger] remain_copy@[q]).1 > 0,
            decreases n - k,
        {
            let i = remain_copy[k].0;
            let chunk_x = i % self.chunks_x;
            let chunk_y = i / self.chunks_x;
            proof {
                assert(chunk_y < self.chunks_y) by (nonlinear_arith)
                    requires
                        (i as int) < self.chunks_x * self.chunks_y,
                        chunk_y == i as int / self.chunks_x as int,
                        self.chunks_x >= 1,
                ;
            }
            let neighbors = self.count_neighbors(chunk_x, chunk_y);
            let ghost pre = remain_copy@;
            remain_copy.set(k, (i, neighbors));
            if neighbors > 0 {
                has_neighbors = true;
            }
            proof {
                if has_neighbors {
                    assert(exists|q: int| 0 <= q < k + 1 && (#[trigger] remain_copy@[q]).1 > 0)
                        by {
                        if neighbors > 0 {
                            assert((remain_copy@[k as int]).1 > 0);
                        } else {
                            let q = choose|q: int| 0 <= q < k && (#[trigger] pre[q]).1 > 0;
                            assert((remain_copy@[q]).1 > 0);
                        }
                    }
                }
            }
            k = k + 1;
        }
        has_neighbors
    }

    /// Gather, for each filled neighbor of the cell, that neighbor's
    /// compatible-pattern list for the facing direction; returns how many
    /// neighbors contributed.
    pub fn populate_constraint_options_for_chunk(
        &self,
        chunk_x: usize,
        chunk_y: usize,
        options: &mut Vec<Vec<usize>>,
    ) -> (total_neighbors: i32)
        requires
            self.core_inv(),
            chunk_x < self.chunks_x,
            chunk_y < self.chunks_y,
            old(options)@.len() == 0,
        ensures
            0 <= total_neighbors <= 4,
            total_neighbors == self.filled_neighbors(chunk_x as int, chunk_y as int),
            final(options)@.len() == total_neighbors,
            forall|l: int| 0 <= l < final(options)@.len()
                ==> exists|t: int, d: int| 0 <= t < self.constraints@.len() && 0 <= d < 4
                    && (#[trigger] final(options)@[l])@
                        == self.constraints@[t].compatible_with@[d]@,
            // each filled neighbor's facing compatibility list is gathered:
            // left faces direction 3, right 2, up 1, down 0
            ({
                let cw = self.chunks_x as int;
                let ci = chunk_y as int * cw + chunk_x as int;
                &&& (self.filled_at(chunk_x as int - 1, chunk_y as int) == 1
                    ==> exists|l: int| 0 <= l < final(options)@.len()
                        && (#[trigger] final(options)@[l])@
                            == self.constraints@[
                                self.chunks@[ci - 1]->Some_0 as int].compatible_with@[3]@)
                &&& (self.filled_at(chunk_x as int + 1, chunk_y as int) == 1
                    ==> exists|l: int| 0 <= l < final(options)@.len()
                        && (#[trigger] final(options)@[l])@
                            == self.constraints@[
                                self.chunks@[ci + 1]->Some_0 as int].compatible_with@[2]@)
                &&& (self.filled_at(chunk_x as int, chunk_y as int - 1) == 1
                    ==> exists|l: int| 0 <= l < final(options)@.len()
                        && (#[trigger] final(options)@[l])@
                            == self.constraints@[
                                self.chunks@[ci - cw]->Some_0 as int].compatible_with@[1]@)
                &&& (self.filled_at(chunk_x as int, chunk_y as int + 1) == 1
                    ==> exists|l: int| 0 <= l < final(options)@.len()
                        && (#[trigger] final(options)@[l])@
                            == self.constraints@[
                                self.chunks@[ci + cw]->Some_0 as int].compatible_with@[0]@)
            }),
    {
        let ghost cw = self.chunks_x as int;
        let ghost ci = chunk_y as int * cw + chunk_x as int;
        let mut total_neighbors: i32 = 0;
        if chunk_x > 0 {
            let left = self.chunk_index(chunk_x - 1, chunk_y);
            match self.chunks[left] {
                Option::None => {},
                Option::Some(t) => {
                    total_neighbors = total_neighbors + 1;
                    let list = self.copy_compat(t, 3);
                    options.push(list);
                    proof {
                        assert(left as int == ci - 1);
                        assert((options@[options@.len() - 1])@ == self.constraints@[
                            self.chunks@[ci - 1]->Some_0 as int].compatible_with@[3]@);
                    }
                },
            }
        }
        let ghost snap1 = options@;
        if chunk_x < self.chunks_x - 1 {
            let right = self.chunk_index(chunk_x + 1, chunk_y);
            match self.chunks[right] {
                Option::None => {},
                Option::Some(t) => {
                    total_neighbors = total_neighbors + 1;
                    let list = self.copy_compat(t, 2);
                    options.push(list);
                    proof {
                        assert(right as int == ci + 1);
                        assert((options@[options@.len() - 1])@ == self.constraints@[
                            self.chunks@[ci + 1]->Some_0 as int].compatible_with@[2]@);
                    }
                },
            }
        }
        let ghost snap2 = options@;
        if chunk_y > 0 {
            let up = self.chunk_index(chunk_x, chunk_y - 1);
            match self.chunks[up] {
                Option::None => {},
                Option::Some(t) => {
                    total_neighbors = total_neighbors + 1;
                    let list = self.copy_compat(t, 1);
                    options.push(list);
                    proof {
                        assert(up as int == ci - cw) by (nonlinear_arith)
                            requires
                                up as int == (chunk_y as int - 1) * cw + chunk_x as int,
                                ci == chunk_y as int * cw + chunk_x as int,
                        ;
                        assert((options@[options@.len() - 1])@ == self.constraints@[
                            self.chunks@[ci - cw]->Some_0 as int].compatible_with@[1]@);
                    }
                },
            }
        }
        let ghost snap3 = options@;
        if chunk_y < self.chunks_y - 1 {
            let down = self.chunk_index(chunk_x, chunk_y + 1);
            match self.chunks[down] {
                Option::None => {},
                Option::Some(t) => {
                    total_neighbors = total_neighbors + 1;
                    let list = self.copy_compat(t, 0);
                    options.push(list);
                    proof {
                        assert(down as int == ci + cw) by (nonlinear_arith)
                            requires
                                down as int == (chunk_y as int + 1) * cw + chunk_x as int,
                                ci == chunk_y as int * cw + chunk_x as int,
                        ;
                        assert((options@[options@.len() - 1])@ == self.constraints@[
                            self.chunks@[ci + cw]->Some_0 as int].compatible_with@[0]@);
                    }
                },
            }
        }
        proof {
            // the snapshots are prefixes of the final list, so each branch's
            // recorded entry survives at its index
            assert(forall|k: int| 0 <= k < snap1.len() ==> options@[k] == snap1[k]);
            assert(forall|k: int| 0 <= k < snap2.len() ==> options@[k] == snap2[k]);
            assert(forall|k: int| 0 <= k < snap3.len() ==> options@[k] == snap3[k]);
            if self.filled_at(chunk_x as int - 1, chunk_y as int) == 1 {
                assert((options@[snap1.len() - 1])@ == self.constraints@[
                    self.chunks@[ci - 1]->Some_0 as int].compatible_with@[3]@);
            }
            if self.filled_at(chunk_x as int + 1, chunk_y as int) == 1 {
                assert((options@[snap2.len() - 1])@ == self.constraints@[
                    self.chunks@[ci + 1]->Some_0 as int].compatible_with@[2]@);
            }
            if self.filled_at(chunk_x as int, chunk_y as int - 1) == 1 {
                assert((options@[snap3.len() - 1])@ == self.constraints@[
                    self.chunks@[ci - cw]->Some_0 as int].compatible_with@[1]@);
            }
            if self.filled_at(chunk_x as int, chunk_y as int + 1) == 1 {
                assert((options@[options@.len() - 1])@ == self.constraints@[
                    self.chunks@[ci + cw]->Some_0 as int].compatible_with@[0]@);
            }
        }
        total_neighbors
    }

    /// A copy of one pattern's compatibility list for one direction.
    fn copy_compat(&self, t: usize, d: usize) -> (r: Vec<usize>)
        requires
            self.core_inv(),
            (t as int) < self.constraints@.len(),
            d < 4,
        ensures
            r@ == self.constraints@[t as int].compatible_with@[d as int]@,
    {
        let list = &self.constraints[t].compatible_with[d];
        let n = list.len();
        let mut r: Vec<usize> = Vec::new();
        let mut k: usize = 0;
        while k < n
            invariant
                self.core_inv(),
                (t as int) < self.constraints@.len(),
                d < 4,
                n == self.constraints@[t as int].compatible_with@[d as int]@.len(),
                k <= n,
                r@.len() == k,
                forall|q: int| 0 <= q < k ==> #[trigger] r@[q]
                    == self.constraints@[t as int].compatible_with@[d as int]@[q],
            decreases n - k,
        {
            let v = self.constraints[t].compatible_with[d][k];
            r.push(v);
            k = k + 1;
        }
        proof {
            assert(r@ =~= self.constraints@[t as int].compatible_with@[d as int]@);
        }
        r
    }


    /// Whether some constraint set pattern has no exits at all: such a
    /// pattern fits everywhere and rules out contradictions.
    pub open spec fn has_wildcard(&self) -> bool {
        exists|wk: int| 0 <= wk < self.constraints@.len()
            && !chunk_has_exits((#[trigger] self.constraints@[wk]).pattern@,
                self.chunk_size as int)
    }

    /// Refresh every worklist entry's filled-neighbor count in place: the
    /// cells stay the same, in the same order, and each entry afterwards
    /// carries its cell's true filled-neighbor count.
    fn refresh_counts(&mut self) -> (has_neighbors: bool)
        requires
            old(self).inv(),
        ensures
            final(self).inv(),
            final(self).constraints@ == old(self).constraints@,
            final(self).chunk_size == old(self).chunk_size,
            final(self).chunks_x == old(self).chunks_x,
            final(self).chunks_y == old(self).chunks_y,
            final(self).chunks@ == old(self).chunks@,
            final(self).possible == old(self).possible,
            final(self).remaining@.len() == old(self).remaining@.len(),
            forall|k: int| 0 <= k < final(self).remaining@.len()
                ==> (#[trigger] final(self).remaining@[k]).0 == old(self).remaining@[k].0
                    && final(self).remaining@[k].1 == old(self).entry_neighbors(k),
            has_neighbors == (exists|k: int| 0 <= k < old(self).remaining@.len()
                && old(self).entry_neighbors(k) > 0),
    {
        let mut remain_copy: Vec<(usize, i32)> = Vec::new();
        let n_rem = self.remaining.len();
        let mut k: usize = 0;
        while k < n_rem
            invariant
                self.inv(),
                n_rem == self.remaining@.len(),
                k <= n_rem,
                remain_copy@.len() == k,
                forall|q: int| 0 <= q < k
                    ==> #[trigger] remain_copy@[q] == self.remaining@[q],
            decreases n_rem - k,
        {
            let entry = self.remaining[k];
            remain_copy.push(entry);
            k = k + 1;
        }
        proof {
            assert(remain_copy@ =~= self.remaining@);
        }
        let has_neighbors = self.populate_neighbors_for_remaining_items(&mut remain_copy);
        proof {
            assert forall|q: int| 0 <= q < remain_copy@.len()
                implies (#[trigger] remain_copy@[q]).0 == self.remaining@[q].0 by {}
        }
        let ghost old_solver = *self;
        self.remaining = remain_copy;
        proof {
            assert(self.inv()) by {
                assert forall|i: int| 0 <= i < self.chunks@.len()
                    && (#[trigger] self.chunks@[i]) is None
                    implies exists|q: int| 0 <= q < self.remaining@.len()
                        && (#[trigger] self.remaining@[q]).0 == i by {
                    let q = choose|q: int| 0 <= q < old_solver.remaining@.len()
                        && (#[trigger] old_solver.remaining@[q]).0 == i;
                    assert((self.remaining@[q]).0 == i);
                }
            }
            assert forall|k2: int| 0 <= k2 < self.remaining@.len()
                implies (#[trigger] self.remaining@[k2]).1
                    == old(self).entry_neighbors(k2) by {}
            assert(has_neighbors == (exists|k2: int| 0 <= k2 < old(self).remaining@.len()
                && old(self).entry_neighbors(k2) > 0)) by {
                if has_neighbors {
                    let k2 = choose|k2: int| 0 <= k2 < self.remaining@.len()
                        && (#[trigger] self.remaining@[k2]).1 > 0;
                    assert(old(self).entry_neighbors(k2) > 0);
                }
                if exists|k2: int| 0 <= k2 < old(self).remaining@.len()
                    && old(self).entry_neighbors(k2) > 0 {
                    let k2 = choose|k2: int| 0 <= k2 < old(self).remaining@.len()
                        && old(self).entry_neighbors(k2) > 0;
                    assert((self.remaining@[k2]).1 > 0);
                }
            }
        }
        has_neighbors
    }

    /// Remove the chosen worklist entry and hand back the cell it names: the
    /// cell is unfilled, no surviving entry names it, and every other
    /// unfilled cell keeps an entry.
    fn take_cell(&mut self, remaining_index: usize) -> (chunk_index: usize)
        requires
            old(self).inv(),
            remaining_index < old(self).remaining@.len(),
        ensures
            final(self).core_inv(),
            final(self).constraints@ == old(self).constraints@,
            final(self).chunk_size == old(self).chunk_size,
            final(self).chunks@ == old(self).chunks@,
            final(self).chunks_x == old(self).chunks_x,
            final(self).chunks_y == old(self).chunks_y,
            final(self).possible == old(self).possible,
            chunk_index == old(self).remaining@[remaining_index as int].0,
            (chunk_index as int) < final(self).chunks@.len(),
            final(self).chunks@[chunk_index as int] is None,
            final(self).remaining@.len() == old(self).remaining@.len() - 1,
            forall|q: int| 0 <= q < final(self).remaining@.len()
                ==> ((#[trigger] final(self).remaining@[q]).0 as int)
                        < final(self).chunks@.len()
                    && final(self).chunks@[final(self).remaining@[q].0 as int] is None
                    && final(self).remaining@[q].0 != chunk_index,
            forall|q1: int, q2: int| 0 <= q1 < q2 < final(self).remaining@.len()
                ==> final(self).remaining@[q1].0 != final(self).remaining@[q2].0,
            forall|i: int| 0 <= i < final(self).chunks@.len()
                && (#[trigger] final(self).chunks@[i]) is None && i != chunk_index as int
                ==> exists|q: int| 0 <= q < final(self).remaining@.len()
                    && (#[trigger] final(self).remaining@[q]).0 == i,
    {
        let chunk_index = self.remaining[remaining_index].0;
        let ghost pre_remove = *self;
        self.remaining.remove(remaining_index);
        proof {
            // entries after the removal are entries of the old worklist
            assert forall|q: int| 0 <= q < self.remaining@.len()
                implies exists|q0: int| 0 <= q0 < pre_remove.remaining@.len()
                    && #[trigger] self.remaining@[q] == pre_remove.remaining@[q0]
                    && (q0 == q || q0 == q + 1)
                    && q0 != remaining_index as int by {
                if q < remaining_index as int {
                    assert(self.remaining@[q] == pre_remove.remaining@[q]);
                } else {
                    assert(self.remaining@[q] == pre_remove.remaining@[q + 1]);
                }
            }
            assert forall|q: int| 0 <= q < self.remaining@.len()
                implies ((#[trigger] self.remaining@[q]).0 as int) < self.chunks@.len()
                    && self.chunks@[self.remaining@[q].0 as int] is None
                    && self.remaining@[q].0 != chunk_index by {
                let q0 = choose|q0: int| 0 <= q0 < pre_remove.remaining@.len()
                    && #[trigger] self.remaining@[q] == pre_remove.remaining@[q0]
                    && (q0 == q || q0 == q + 1) && q0 != remaining_index as int;
                if pre_remove.remaining@[q0].0 == chunk_index {
                    // two distinct old entries cannot name the same cell
                    assert(pre_remove.remaining@[remaining_index as int].0 == chunk_index);
                    assert(false);
                }
            }
            assert forall|q1: int, q2: int| 0 <= q1 < q2 < self.remaining@.len()
                implies self.remaining@[q1].0 != self.remaining@[q2].0 by {
                if q2 < remaining_index as int {
                } else if q1 < remaining_index as int {
                    assert(self.remaining@[q2] == pre_remove.remaining@[q2 + 1]);
                } else {
                    assert(self.remaining@[q1] == pre_remove.remaining@[q1 + 1]);
                    assert(self.remaining@[q2] == pre_remove.remaining@[q2 + 1]);
                }
            }
            assert forall|i: int| 0 <= i < self.chunks@.len()
                && (#[trigger] self.chunks@[i]) is None && i != chunk_index as int
                implies exists|q: int| 0 <= q < self.remaining@.len()
                    && (#[trigger] self.remaining@[q]).0 == i by {
                let q = choose|q: int| 0 <= q < pre_remove.remaining@.len()
                    && (#[trigger] pre_remove.remaining@[q]).0 == i;
                if q < remaining_index as int {
                    assert((self.remaining@[q]).0 == i);
                } else {
                    assert(q != remaining_index as int);
                    assert((self.remaining@[q - 1]).0 == i);
                }
            }
        }
        chunk_index
    }

    /// The candidates of the first gathered list that every other gathered
    /// list accepts: the intersection the solver draws its pattern from.
    fn intersect_options(&self, options: &Vec<Vec<usize>>) -> (po: Vec<usize>)
        requires
            self.core_inv(),
            options@.len() >= 1,
            forall|l: int| 0 <= l < options@.len()
                ==> exists|t2: int, d: int| 0 <= t2 < self.constraints@.len()
                    && 0 <= d < 4 && (#[trigger] options@[l])@
                        == self.constraints@[t2].compatible_with@[d]@,
        ensures
            po@.len() <= options@[0]@.len(),
            forall|m: int| 0 <= m < po@.len()
                ==> ((#[trigger] po@[m]) as int) < self.constraints@.len(),
            forall|m: int, l: int| 0 <= m < po@.len() && 0 <= l < options@.len()
                ==> (#[trigger] options@[l])@.contains(#[trigger] po@[m]),
            forall|cand: usize| (exists|w: int| 0 <= w < options@[0]@.len()
                && (#[trigger] options@[0]@[w]) == cand) && (forall|l: int|
                    0 <= l < options@.len()
                    ==> (#[trigger] options@[l])@.contains(cand))
                ==> po@.contains(cand),
    {
        let first = &options[0];
        let mut possible_options: Vec<usize> = Vec::new();
        let flen = first.len();
        let mut t: usize = 0;
        while t < flen
            invariant
                self.core_inv(),
                options@.len() >= 1,
                flen == options@[0]@.len(),
                t <= flen,
                possible_options@.len() <= t,
                forall|m: int| 0 <= m < possible_options@.len()
                    ==> ((#[trigger] possible_options@[m]) as int)
                        < self.constraints@.len(),
                forall|m: int, l: int| 0 <= m < possible_options@.len()
                    && 0 <= l < options@.len()
                    ==> (#[trigger] options@[l])@.contains(
                        #[trigger] possible_options@[m]),
                forall|l: int| 0 <= l < options@.len()
                    ==> exists|t2: int, d: int| 0 <= t2 < self.constraints@.len()
                        && 0 <= d < 4 && (#[trigger] options@[l])@
                            == self.constraints@[t2].compatible_with@[d]@,
                forall|cand: usize| (exists|w: int| 0 <= w < t
                    && (#[trigger] options@[0]@[w]) == cand) && (forall|l: int|
                        0 <= l < options@.len()
                        ==> (#[trigger] options@[l])@.contains(cand))
                    ==> possible_options@.contains(cand),
            decreases flen - t,
        {
            let cand = options[0][t];
            let mut in_all = true;
            let mut l: usize = 0;
            let olen = options.len();
            while l < olen
                invariant
                    olen == options@.len(),
                    l <= olen,
                    in_all == forall|l2: int| 0 <= l2 < l
                        ==> (#[trigger] options@[l2])@.contains(cand),
                decreases olen - l,
            {
                let present = list_contains(&options[l], cand);
                if !present {
                    in_all = false;
                }
                l = l + 1;
            }
            let ghost pre_po = possible_options@;
            if in_all {
                proof {
                    assert(options@[0]@.contains(cand));
                    let (t2, d) = choose|t2: int, d: int| 0 <= t2 < self.constraints@.len()
                        && 0 <= d < 4 && (options@[0])@
                            == self.constraints@[t2].compatible_with@[d]@;
                    assert((cand as int) < self.constraints@.len());
                }
                possible_options.push(cand);
            }
            proof {
                assert forall|cand2: usize| (exists|w: int| 0 <= w < t + 1
                    && (#[trigger] options@[0]@[w]) == cand2) && (forall|l2: int|
                        0 <= l2 < options@.len()
                        ==> (#[trigger] options@[l2])@.contains(cand2))
                    implies possible_options@.contains(cand2) by {
                    let w = choose|w: int| 0 <= w < t + 1
                        && (#[trigger] options@[0]@[w]) == cand2;
                    if w == t as int {
                        assert(cand2 == cand);
                        assert(in_all);
                        assert(possible_options@[possible_options@.len() - 1] == cand);
                    } else {
                        assert(pre_po.contains(cand2));
                        let v = choose|v: int| 0 <= v < pre_po.len()
                            && pre_po[v] == cand2;
                        assert(possible_options@[v] == cand2);
                    }
                }
            }
            t = t + 1;
        }
        possible_options
    }

    /// One solver step: pick the unfilled cell with the most filled neighbors
    /// (a random one when none has any), fill it with a pattern every filled
    /// neighbor accepts, and report completion. On an empty candidate set the
    /// attempt is marked impossible and the step reports completion instead.
    /// A constraint set with a no-exits pattern never becomes impossible.
    #[verifier::rlimit(100)]
    pub fn iteration(&mut self, map: &mut Grid, rng: &mut RandomStream) -> (done: bool)
        requires
            old(self).inv(),
            old(map).inv(),
            old(self).fits_map(*old(map)),
        ensures
            final(self).inv(),
            final(map).inv(),
            final(self).fits_map(*final(map)),
            final(map).width == old(map).width,
            final(map).height == old(map).height,
            final(map).depth == old(map).depth,
            final(self).constraints@ == old(self).constraints@,
            final(self).chunk_size == old(self).chunk_size,
            final(self).chunks_x == old(self).chunks_x,
            final(self).chunks_y == old(self).chunks_y,
            old(self).remaining@.len() == 0 ==> done && *final(self) == *old(self)
                && *final(map) == *old(map),
            !done ==> final(self).remaining@.len() == old(self).remaining@.len() - 1
                && final(self).possible == old(self).possible,
            done ==> final(self).remaining@.len() <= old(self).remaining@.len(),
            done && old(self).remaining@.len() > 0 ==> !final(self).possible,
            // a contradiction stamps nothing: the chunk grid and the map are
            // exactly as they were
            done && old(self).remaining@.len() > 0
                ==> final(self).chunks@ == old(self).chunks@ && *final(map) == *old(map),
            // a non-final step stamps one worklist cell with a pattern every
            // filled neighbor accepts, and writes it into the map window; the
            // cell is the first of maximal filled-neighbor count, or the
            // named random draw when no cell has a filled neighbor
            !done ==> exists|ri: int| 0 <= ri < old(self).remaining@.len()
                && #[trigger] old(self).stamped_step(*final(self), *old(map), *final(map), ri)
                && (if exists|k: int| 0 <= k < old(self).remaining@.len()
                        && old(self).entry_neighbors(k) > 0 {
                    (forall|k: int| 0 <= k < old(self).remaining@.len()
                        ==> old(self).entry_neighbors(k)
                            <= old(self).entry_neighbors(ri))
                    && (forall|k: int| 0 <= k < ri
                        ==> old(self).entry_neighbors(k) < old(self).entry_neighbors(ri))
                } else {
                    ri == roll_of(old(rng).seed(), old(rng).history(), 1,
                        old(self).remaining@.len() as int) - 1
                }),
            old(self).possible && old(self).has_wildcard()
                ==> final(self).possible && (done <==> old(self).remaining@.len() == 0),
    {
        if self.remaining.len() == 0 {
            return true;
        }

        let has_neighbors = self.refresh_counts();
        // choose the cell: most filled neighbors first, else uniformly random
        let remaining_index: usize;
        if !has_neighbors {
            proof {
                lemma_remaining_len_bound(self.remaining@, self.chunks@.len());
                assert(self.chunks_x * self.chunks_y <= 512 * 512) by (nonlinear_arith)
                    requires self.chunks_x <= 512 && self.chunks_y <= 512
                ;
            }
            let len = self.remaining.len();
            remaining_index = (rng.roll_dice(1, len as i32) - 1) as usize;
        } else {
            let mut best: usize = 0;
            let mut best_count = self.remaining[0].1;
            let mut q: usize = 1;
            let len = self.remaining.len();
            while q < len
                invariant
                    len == self.remaining@.len(),
                    1 <= q <= len,
                    best < len,
                    best_count == self.remaining@[best as int].1,
                    forall|m: int| 0 <= m < q
                        ==> (#[trigger] self.remaining@[m]).1 <= best_count,
                    forall|m: int| 0 <= m < best
                        ==> (#[trigger] self.remaining@[m]).1 < best_count,
                decreases len - q,
            {
                if self.remaining[q].1 > best_count {
                    best = q;
                    best_count = self.remaining[q].1;
                }
                q = q + 1;
            }
            remaining_index = best;
        }
        let ghost chose_first_max = has_neighbors;
        proof {
            if chose_first_max {
                // the scan kept the first entry of maximal refreshed count
                assert(forall|k: int| 0 <= k < old(self).remaining@.len()
                    ==> old(self).entry_neighbors(k)
                        <= old(self).entry_neighbors(remaining_index as int));
                assert(forall|k: int| 0 <= k < remaining_index as int
                    ==> old(self).entry_neighbors(k)
                        < old(self).entry_neighbors(remaining_index as int));
            }
        }

        let chunk_index = self.take_cell(remaining_index);

        let chunk_x = chunk_index % self.chunks_x;
        let chunk_y = chunk_index / self.chunks_x;
        proof {
            assert(chunk_y < self.chunks_y) by (nonlinear_arith)
                requires
                    (chunk_index as int) < self.chunks_x * self.chunks_y,
                    chunk_y == chunk_index as int / self.chunks_x as int,
                    chunk_x == chunk_index as int % self.chunks_x as int,
                    self.chunks_x >= 1,
            ;
            assert((chunk_y as int) * (self.chunks_x as int) + chunk_x == chunk_index)
                by (nonlinear_arith)
                requires
                    chunk_y == chunk_index as int / self.chunks_x as int,
                    chunk_x == chunk_index as int % self.chunks_x as int,
                    self.chunks_x >= 1,
            ;
        }

        let mut options: Vec<Vec<usize>> = Vec::new();
        let total_neighbors = self.populate_constraint_options_for_chunk(
            chunk_x,
            chunk_y,
            &mut options,
        );

        let new_pattern: usize;
        if total_neighbors == 0 {
            let count = self.constraints.len();
            new_pattern = (rng.roll_dice(1, count as i32) - 1) as usize;
        } else {
            let possible_options = self.intersect_options(&options);

            if possible_options.len() == 0 {
                // put the cell back on the worklist; this attempt is being
                // abandoned, and the solver stays structurally sound
                let ghost pre_push = *self;
                self.remaining.push((chunk_index, 0));
                proof {
                    assert(self.inv()) by {
                        assert forall|q1: int, q2: int|
                            0 <= q1 < q2 < self.remaining@.len()
                            implies self.remaining@[q1].0 != self.remaining@[q2].0 by {
                            if q2 == self.remaining@.len() - 1 {
                                assert(self.remaining@[q1] == pre_push.remaining@[q1]);
                                assert(pre_push.remaining@[q1].0 != chunk_index);
                            }
                        }
                        assert forall|i: int| 0 <= i < self.chunks@.len()
                            && (#[trigger] self.chunks@[i]) is None
                            implies exists|q: int| 0 <= q < self.remaining@.len()
                                && (#[trigger] self.remaining@[q]).0 == i by {
                            if i == chunk_index as int {
                                assert((self.remaining@[self.remaining@.len() - 1]).0 == i);
                            } else {
                                let q = choose|q: int| 0 <= q < pre_push.remaining@.len()
                                    && (#[trigger] pre_push.remaining@[q]).0 == i;
                                assert((self.remaining@[q]).0 == i);
                            }
                        }
                    }
                }
                proof {
                    if self.has_wildcard() {
                        // a no-exits pattern is accepted by every list, so the
                        // intersection cannot be empty
                        let wk = choose|wk: int| 0 <= wk < self.constraints@.len()
                            && !chunk_has_exits(
                                (#[trigger] self.constraints@[wk]).pattern@,
                                self.chunk_size as int);
                        assert forall|l: int| 0 <= l < options@.len()
                            implies (#[trigger] options@[l])@.contains(wk as usize) by {
                            let (t2, d) = choose|t2: int, d: int|
                                0 <= t2 < self.constraints@.len() && 0 <= d < 4
                                    && (#[trigger] options@[l])@
                                        == self.constraints@[t2].compatible_with@[d]@;
                            assert(chunk_fits(self.constraints@[t2].pattern@,
                                self.constraints@[wk].pattern@, self.chunk_size as int, d));
                            assert(self.constraints@[t2].compatible_with@[d]@.contains(
                                wk as usize));
                        }
                        assert(options@[0]@.contains(wk as usize));
                        let w = choose|w: int| 0 <= w < options@[0]@.len()
                            && options@[0]@[w] == wk as usize;
                        assert(possible_options@.contains(wk as usize));
                        assert(false);
                    }
                }
                self.possible = false;
                return true;
            }

            let plen = possible_options.len();
            proof {
                assert(plen <= options@[0]@.len());
                let (t2, d) = choose|t2: int, d: int| 0 <= t2 < self.constraints@.len()
                    && 0 <= d < 4 && (options@[0])@
                        == self.constraints@[t2].compatible_with@[d]@;
                assert(options@[0]@.len() <= self.constraints@.len());
            }
            let pick: usize = if plen == 1 {
                0
            } else {
                (rng.roll_dice(1, plen as i32) - 1) as usize
            };
            new_pattern = possible_options[pick];
        }

        let ghost pre_fill = *self;
        self.chunks.set(chunk_index, Option::Some(new_pattern));
        proof {
            assert(self.inv()) by {
                assert forall|q: int| 0 <= q < self.remaining@.len()
                    implies self.chunks@[(#[trigger] self.remaining@[q]).0 as int] is None by {
                    assert(self.remaining@[q].0 != chunk_index);
                }
                assert forall|i: int| 0 <= i < self.chunks@.len()
                    && (#[trigger] self.chunks@[i]) is None
                    implies exists|q: int| 0 <= q < self.remaining@.len()
                        && (#[trigger] self.remaining@[q]).0 == i by {
                    assert(i != chunk_index as int);
                    assert(pre_fill.chunks@[i] is None);
                }
            }
        }
        self.populate_chunk_constraints(map, chunk_x, chunk_y, new_pattern);
        proof {
            let os = *old(self);
            let ri = remaining_index as int;
            let cw = os.chunks_x as int;
            let ci = os.remaining@[ri].0 as int;
            assert(ci == chunk_index as int);
            assert(chunk_x as int == ci % cw && chunk_y as int == ci / cw);
            assert(self.chunks@ =~= os.chunks@.update(ci, Option::Some(new_pattern)));
            assert(os.chunks@[ci] is None);
            Solver::lemma_stamped_step(
                os, *self, *old(map), *map, ri, options@, new_pattern, total_neighbors);
            assert(os.stamped_step(*self, *old(map), *map, ri));
            if chose_first_max {
                assert(exists|k: int| 0 <= k < os.remaining@.len()
                    && os.entry_neighbors(k) > 0);
            } else {
                assert(!(exists|k: int| 0 <= k < os.remaining@.len()
                    && os.entry_neighbors(k) > 0));
                assert(ri == roll_of(old(rng).seed(), old(rng).history(), 1,
                    os.remaining@.len() as int) - 1);
            }
        }
        false
    }

    /// Stamp the chosen pattern's tiles into the map at the cell's window:
    /// afterwards the window equals the pattern row-major, and every tile
    /// outside the window is unchanged.
    pub fn populate_chunk_constraints(
        &self,
        map: &mut Grid,
        chunk_x: usize,
        chunk_y: usize,
        new_chunk_index: usize,
    )
        requires
            self.core_inv(),
            old(map).inv(),
            self.fits_map(*old(map)),
            chunk_x < self.chunks_x,
            chunk_y < self.chunks_y,
            (new_chunk_index as int) < self.constraints@.len(),
        ensures
            final(map).inv(),
            final(map).width == old(map).width,
            final(map).height == old(map).height,
            final(map).depth == old(map).depth,
            final(map).tiles@.len() == old(map).tiles@.len(),
            final(map).revealed_tiles@ == old(map).revealed_tiles@,
            final(map).visible_tiles@ == old(map).visible_tiles@,
            final(map).blocked@ == old(map).blocked@,
            ({
                let cs = self.chunk_size as int;
                let left = chunk_x as int * cs;
                let top = chunk_y as int * cs;
                &&& forall|dx: int, dy: int| 0 <= dx < cs && 0 <= dy < cs
                    ==> final(map).tiles@[#[trigger] old(map).idx(left + dx, top + dy)]
                        == self.constraints@[new_chunk_index as int]
                            .pattern@[dy * cs + dx]
                &&& forall|a: int, b: int| old(map).in_bounds(a, b)
                    && !(left <= a < left + cs && top <= b < top + cs)
                    ==> final(map).tiles@[#[trigger] old(map).idx(a, b)]
                        == old(map).tiles@[old(map).idx(a, b)]
            }),
    {
        let cs = self.chunk_size;
        proof {
            assert((chunk_x as int) * cs + cs <= (self.chunks_x as int) * cs
                && (chunk_y as int) * cs + cs <= (self.chunks_y as int) * cs
                && 0 <= (chunk_x as int) * cs
                && 0 <= (chunk_y as int) * cs) by (nonlinear_arith)
                requires
                    (chunk_x as int) < self.chunks_x,
                    (chunk_y as int) < self.chunks_y,
                    1 <= cs,
            ;
        }
        let left = (chunk_x as i32) * cs;
        let top = (chunk_y as i32) * cs;
        let mut tile_y: i32 = 0;
        while tile_y < cs
            invariant
                self.core_inv(),
                old(map).inv(),
                map.inv(),
                map.width == old(map).width,
                map.height == old(map).height,
                map.depth == old(map).depth,
                map.tiles@.len() == old(map).tiles@.len(),
                map.revealed_tiles@ == old(map).revealed_tiles@,
                map.visible_tiles@ == old(map).visible_tiles@,
                map.blocked@ == old(map).blocked@,
                cs == self.chunk_size,
                (new_chunk_index as int) < self.constraints@.len(),
                0 <= left,
                left + cs <= map.width,
                0 <= top,
                top + cs <= map.height,
                0 <= tile_y <= cs,
                forall|dx: int, dy: int| 0 <= dx < cs && 0 <= dy < tile_y
                    ==> map.tiles@[#[trigger] old(map).idx(left + dx, top + dy)]
                        == self.constraints@[new_chunk_index as int].pattern@[dy * cs + dx],
                forall|a: int, b: int| old(map).in_bounds(a, b)
                    && !(left <= a < left + cs && top <= b < top + tile_y)
                    ==> map.tiles@[#[trigger] old(map).idx(a, b)]
                        == old(map).tiles@[old(map).idx(a, b)],
            decreases cs - tile_y,
        {
            let mut tile_x: i32 = 0;
            while tile_x < cs
                invariant
                    self.core_inv(),
                    old(map).inv(),
                    map.inv(),
                    map.width == old(map).width,
                    map.height == old(map).height,
                    map.depth == old(map).depth,
                    map.tiles@.len() == old(map).tiles@.len(),
                    map.revealed_tiles@ == old(map).revealed_tiles@,
                    map.visible_tiles@ == old(map).visible_tiles@,
                    map.blocked@ == old(map).blocked@,
                    cs == self.chunk_size,
                    (new_chunk_index as int) < self.constraints@.len(),
                    0 <= left,
                    left + cs <= map.width,
                    0 <= top,
                    top + cs <= map.height,
                    0 <= tile_y < cs,
                    0 <= tile_x <= cs,
                    forall|dx: int, dy: int| 0 <= dx < cs
                        && (0 <= dy < tile_y || (dy == tile_y && 0 <= dx < tile_x))
                        ==> map.tiles@[#[trigger] old(map).idx(left + dx, top + dy)]
                            == self.constraints@[new_chunk_index as int]
                                .pattern@[dy * cs + dx],
                    forall|a: int, b: int| old(map).in_bounds(a, b)
                        && !(left <= a < left + cs
                            && (top <= b < top + tile_y
                                || (b == top + tile_y && left <= a < left + tile_x)))
                        ==> map.tiles@[#[trigger] old(map).idx(a, b)]
                            == old(map).tiles@[old(map).idx(a, b)],
                decreases cs - tile_x,
            {
                let pi = tile_index_in_chunk(cs, tile_x, tile_y);
                let t = self.constraints[new_chunk_index].pattern[pi];
                let ghost pre = *map;
                map.set_tile(left + tile_x, top + tile_y, t);
                proof {
                    old(map).lemma_idx_bounds(
                        left as int + tile_x as int, top as int + tile_y as int);
                    assert(map.tiles@[old(map).idx(
                        left as int + tile_x as int, top as int + tile_y as int)] == t);
                    assert forall|a: int, b: int|
                        old(map).in_bounds(a, b)
                            && (a != left as int + tile_x as int
                                || b != top as int + tile_y as int)
                        implies map.tiles@[#[trigger] old(map).idx(a, b)]
                            == pre.tiles@[old(map).idx(a, b)] by {
                        old(map).lemma_idx_bounds(a, b);
                        if old(map).idx(a, b) == old(map).idx(
                            left as int + tile_x as int, top as int + tile_y as int) {
                            old(map).lemma_idx_injective(a, b,
                                left as int + tile_x as int, top as int + tile_y as int);
                        }
                    }
                }
                tile_x = tile_x + 1;
            }
            tile_y = tile_y + 1;
        }
    }
}

} // verus!
