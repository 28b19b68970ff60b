//! The Voronoi carving generator: scatter random seed points, assign every
//! tile to its nearest seed under a selectable distance metric, and carve a
//! tile to floor when two or more of its four neighbors lie in a different
//! region, producing winding corridors along the cell boundaries.

use vstd::prelude::*;
use crate::grid::{Grid, Position, MAP_WIDTH, MAP_HEIGHT, MAX_DIM};
use crate::rng::RandomStream;
use crate::tile::{walkable, TileType};
use crate::reach::{no_stairs, fully_connected, single_stairs};
use crate::connectivity::{ensure_floor_exists, find_starting_floor, finalize_exit};
use crate::regions::{generate_voronoi_spawn_regions, regions_wf};
use crate::snapshot::build_snapshot;

verus! {

/// The distance metric a Voronoi build assigns tiles with.
#[derive(PartialEq, Eq, Structural, Copy, Clone, Debug)]
pub enum DistanceAlgorithm {
    Pythagoras,
    Manhattan,
    Chebyshev,
}

/// Squared Euclidean distance between two coordinates.
pub open spec fn dist_pythagoras(ax: int, ay: int, bx: int, by: int) -> int {
    (ax - bx) * (ax - bx) + (ay - by) * (ay - by)
}

/// Manhattan distance between two coordinates.
pub open spec fn dist_manhattan(ax: int, ay: int, bx: int, by: int) -> int {
    abs_i(ax - bx) + abs_i(ay - by)
}

/// Chebyshev distance between two coordinates.
pub open spec fn dist_chebyshev(ax: int, ay: int, bx: int, by: int) -> int {
    if abs_i(ax - bx) > abs_i(ay - by) {
        abs_i(ax - bx)
    } else {
        abs_i(ay - by)
    }
}

/// Absolute value of a mathematical integer.
pub open spec fn abs_i(a: int) -> int {
    if a < 0 { -a } else { a }
}

/// The chosen metric's distance between two coordinates.
pub open spec fn seed_distance(alg: DistanceAlgorithm, ax: int, ay: int, bx: int, by: int) -> int {
    match alg {
        DistanceAlgorithm::Pythagoras => dist_pythagoras(ax, ay, bx, by),
        DistanceAlgorithm::Manhattan => dist_manhattan(ax, ay, bx, by),
        DistanceAlgorithm::Chebyshev => dist_chebyshev(ax, ay, bx, by),
    }
}

/// Executable counterpart of [`seed_distance`].
pub fn distance_between(
    alg: DistanceAlgorithm,
    ax: i32,
    ay: i32,
    bx: i32,
    by: i32,
) -> (r: i32)
    requires
        0 <= ax <= MAX_DIM,
        0 <= ay <= MAX_DIM,
        0 <= bx <= MAX_DIM,
        0 <= by <= MAX_DIM,
    ensures
        r == seed_distance(alg, ax as int, ay as int, bx as int, by as int),
        0 <= r,
{
    let dx = if ax >= bx { ax - bx } else { bx - ax };
    let dy = if ay >= by { ay - by } else { by - ay };
    match alg {
        DistanceAlgorithm::Pythagoras => {
            proof {
                assert(dx * dx + dy * dy <= 512 * 512 + 512 * 512) by (nonlinear_arith)
                    requires 0 <= dx <= 512 && 0 <= dy <= 512
                ;
                assert(dx * dx == (ax - bx) * (ax - bx) && dy * dy == (ay - by) * (ay - by))
                    by (nonlinear_arith)
                    requires
                        (dx == ax - bx || dx == bx - ax),
                        (dy == ay - by || dy == by - ay),
                        dx >= 0,
                        dy >= 0,
                ;
            }
            dx * dx + dy * dy
        },
        DistanceAlgorithm::Manhattan => dx + dy,
        DistanceAlgorithm::Chebyshev => if dx > dy { dx } else { dy },
    }
}

pub struct VoronoiBuilder {
    pub map: Grid,
    pub starting_position: Position,
    pub depth: i32,
    pub history: Vec<Grid>,
    pub noise_areas: Vec<(i32, Vec<usize>)>,
    pub number_of_seeds: usize,
    pub distance_algorithm: DistanceAlgorithm,
    pub show_snapshots: bool,
}

impl VoronoiBuilder {
    /// The builder's map is well-formed and roomy enough for its seed count.
    pub open spec fn wf(&self) -> bool {
        &&& self.map.inv()
        &&& self.map.width >= 8
        &&& self.map.height >= 8
        &&& 1 <= self.number_of_seeds <= 256
    }

    /// A builder over the default-sized all-wall map with the given metric.
    pub fn new(
        new_depth: i32,
        number_of_seeds: usize,
        distance_algorithm: DistanceAlgorithm,
    ) -> (r: VoronoiBuilder)
        requires
            1 <= number_of_seeds <= 256,
        ensures
            r.wf(),
            r.map.width == MAP_WIDTH,
            r.map.height == MAP_HEIGHT,
            r.map.depth == new_depth,
            r.depth == new_depth,
            no_stairs(r.map),
            r.distance_algorithm == distance_algorithm,
            r.number_of_seeds == number_of_seeds,
    {
        VoronoiBuilder {
            map: Grid::new(MAP_WIDTH, MAP_HEIGHT, new_depth),
            starting_position: Position { x: 0, y: 0 },
            depth: new_depth,
            history: Vec::new(),
            noise_areas: Vec::new(),
            number_of_seeds,
            distance_algorithm,
            show_snapshots: false,
        }
    }

    /// The squared-Euclidean preset.
    pub fn pythagoras(new_depth: i32) -> (r: VoronoiBuilder)
        ensures
            r.wf(),
            no_stairs(r.map),
            r.depth == new_depth,
            r.map.width == MAP_WIDTH,
            r.map.height == MAP_HEIGHT,
            r.map.depth == new_depth,
            r.number_of_seeds == 64,
            r.distance_algorithm == DistanceAlgorithm::Pythagoras,
    {
        VoronoiBuilder::new(new_depth, 64, DistanceAlgorithm::Pythagoras)
    }

    /// The Manhattan preset.
    pub fn manhattan(new_depth: i32) -> (r: VoronoiBuilder)
        ensures
            r.wf(),
            no_stairs(r.map),
            r.depth == new_depth,
            r.map.width == MAP_WIDTH,
            r.map.height == MAP_HEIGHT,
            r.map.depth == new_depth,
            r.number_of_seeds == 64,
            r.distance_algorithm == DistanceAlgorithm::Manhattan,
    {
        VoronoiBuilder::new(new_depth, 64, DistanceAlgorithm::Manhattan)
    }

    /// The Chebyshev preset.
    pub fn chebyshev(new_depth: i32) -> (r: VoronoiBuilder)
        ensures
            r.wf(),
            no_stairs(r.map),
            r.depth == new_depth,
            r.map.width == MAP_WIDTH,
            r.map.height == MAP_HEIGHT,
            r.map.depth == new_depth,
            r.number_of_seeds == 64,
            r.distance_algorithm == DistanceAlgorithm::Chebyshev,
    {
        VoronoiBuilder::new(new_depth, 64, DistanceAlgorithm::Chebyshev)
    }

    /// Capture a visualization frame if the visualizer is enabled.
    pub fn take_snapshot(&mut self)
        requires
            old(self).wf(),
        ensures
            final(self).wf(),
            final(self).map == old(self).map,
            final(self).starting_position == old(self).starting_position,
            final(self).depth == old(self).depth,
            final(self).show_snapshots == old(self).show_snapshots,
    {
        match build_snapshot(&self.map, self.show_snapshots) {
            Option::Some(t) => {
                self.history.push(t);
            },
            Option::None => {},
        }
    }

    /// Build the map: scatter seeds, assign every tile to its nearest seed,
    /// carve the cell boundaries, then repair connectivity and stamp the
    /// exit. Afterwards every walkable tile is reachable from the starting
    /// position and exactly one StairsDown tile exists.
    pub fn build(&mut self, rng: &mut RandomStream)
        requires
            old(self).wf(),
            no_stairs(old(self).map),
        ensures
            final(self).wf(),
            final(self).map.width == old(self).map.width,
            final(self).map.height == old(self).map.height,
            final(self).map.depth == old(self).map.depth,
            final(self).depth == old(self).depth,
            fully_connected(
                final(self).map,
                final(self).starting_position.x as int,
                final(self).starting_position.y as int,
            ),
            single_stairs(final(self).map),
            final(self).map.in_bounds(
                final(self).starting_position.x as int,
                final(self).starting_position.y as int,
            ),
            walkable(final(self).map.tiles@[final(self).map.idx(
                final(self).starting_position.x as int,
                final(self).starting_position.y as int,
            )]),
            regions_wf(final(self).noise_areas@, final(self).map),
    {
        let w = self.map.width;
        let h = self.map.height;

        // scatter distinct random seed points
        let mut voronoi_seeds: Vec<(i32, i32)> = Vec::new();
        let mut attempts: i32 = 1000000;
        while voronoi_seeds.len() < self.number_of_seeds && attempts > 0
            invariant
                self.wf(),
                w == self.map.width,
                h == self.map.height,
                forall|k: int| 0 <= k < voronoi_seeds@.len()
                    ==> 1 <= (#[trigger] voronoi_seeds@[k]).0 <= w - 1
                        && 1 <= voronoi_seeds@[k].1 <= h - 1,
            decreases attempts,
        {
            attempts = attempts - 1;
            let v_x = rng.roll_dice(1, w - 1);
            let v_y = rng.roll_dice(1, h - 1);
            let mut already = false;
            let mut k: usize = 0;
            while k < voronoi_seeds.len()
                invariant
                    k <= voronoi_seeds@.len(),
                decreases voronoi_seeds@.len() - k,
            {
                let s = voronoi_seeds[k];
                if s.0 == v_x && s.1 == v_y {
                    already = true;
                }
                k = k + 1;
            }
            if !already {
                voronoi_seeds.push((v_x, v_y));
            }
        }
        if voronoi_seeds.len() == 0 {
            // the attempt budget cannot plausibly run out, but keep the
            // seed list nonempty in every case
            voronoi_seeds.push((1, 1));
        }

        // assign each tile the index of its nearest seed, first seed winning ties
        let nseeds = voronoi_seeds.len();
        let mut voronoi_membership: Vec<usize> = Vec::new();
        let mut y: i32 = 0;
        while y < h
            invariant
                self.wf(),
                w == self.map.width,
                h == self.map.height,
                0 <= y <= h,
                nseeds == voronoi_seeds@.len(),
                nseeds >= 1,
                voronoi_membership@.len() == y * w,
                forall|k: int| 0 <= k < voronoi_membership@.len()
                    ==> #[trigger] voronoi_membership@[k] < nseeds,
                forall|k: int| 0 <= k < voronoi_seeds@.len()
                    ==> 1 <= (#[trigger] voronoi_seeds@[k]).0 <= w - 1
                        && 1 <= voronoi_seeds@[k].1 <= h - 1,
            decreases h - y,
        {
            let mut x: i32 = 0;
            while x < w
                invariant
                    self.wf(),
                    w == self.map.width,
                    h == self.map.height,
                    0 <= y < h,
                    0 <= x <= w,
                    nseeds == voronoi_seeds@.len(),
                    nseeds >= 1,
                    voronoi_membership@.len() == y * w + x,
                    forall|k: int| 0 <= k < voronoi_membership@.len()
                        ==> #[trigger] voronoi_membership@[k] < nseeds,
                    forall|k: int| 0 <= k < voronoi_seeds@.len()
                        ==> 1 <= (#[trigger] voronoi_seeds@[k]).0 <= w - 1
                            && 1 <= voronoi_seeds@[k].1 <= h - 1,
                decreases w - x,
            {
                let first = voronoi_seeds[0];
                let mut best: usize = 0;
                let mut best_d = distance_between(self.distance_algorithm, x, y, first.0, first.1);
                let mut s: usize = 1;
                while s < nseeds
                    invariant
                        nseeds == voronoi_seeds@.len(),
                        1 <= s <= nseeds,
                        best < nseeds,
                        0 <= x <= MAX_DIM,
                        0 <= y <= MAX_DIM,
                        forall|k: int| 0 <= k < voronoi_seeds@.len()
                            ==> 1 <= (#[trigger] voronoi_seeds@[k]).0 <= MAX_DIM
                                && 1 <= voronoi_seeds@[k].1 <= MAX_DIM,
                    decreases nseeds - s,
                {
                    let seed = voronoi_seeds[s];
                    let d = distance_between(self.distance_algorithm, x, y, seed.0, seed.1);
                    if d < best_d {
                        best_d = d;
                        best = s;
                    }
                    s = s + 1;
                }
                voronoi_membership.push(best);
                proof {
                    assert(y * (w as int) + x + 1 == voronoi_membership@.len());
                }
                x = x + 1;
            }
            proof {
                assert((y + 1) * (w as int) == y * (w as int) + w) by (nonlinear_arith);
            }
            y = y + 1;
        }

        proof {
            assert((self.map.height as int) * (self.map.width as int)
                == self.map.width as int * self.map.height as int) by (nonlinear_arith);
        }

        // carve the cell boundaries: a tile with two or more neighbors in a
        // different region lies on a boundary between cells
        let mut cy: i32 = 1;
        while cy < h - 1
            invariant
                self.wf(),
                w == self.map.width,
                h == self.map.height,
                1 <= cy <= h - 1,
                self.map.depth == old(self).map.depth,
                self.depth == old(self).depth,
                self.show_snapshots == old(self).show_snapshots,
                voronoi_membership@.len() == self.map.tiles@.len(),
                no_stairs(self.map),
            decreases h - cy,
        {
            let mut cx: i32 = 1;
            while cx < w - 1
                invariant
                    self.wf(),
                    w == self.map.width,
                    h == self.map.height,
                    1 <= cy < h - 1,
                    1 <= cx <= w - 1,
                    self.map.depth == old(self).map.depth,
                    self.depth == old(self).depth,
                    self.show_snapshots == old(self).show_snapshots,
                    voronoi_membership@.len() == self.map.tiles@.len(),
                    no_stairs(self.map),
                decreases w - cx,
            {
                let mut neighbors: i32 = 0;
                let current_index = self.map.xy_idx(cx, cy);
                let current_seed = voronoi_membership[current_index];
                let left = self.map.xy_idx(cx - 1, cy);
                let right = self.map.xy_idx(cx + 1, cy);
                let up = self.map.xy_idx(cx, cy - 1);
                let down = self.map.xy_idx(cx, cy + 1);
                if voronoi_membership[left] != current_seed { neighbors = neighbors + 1; }
                if voronoi_membership[right] != current_seed { neighbors = neighbors + 1; }
                if voronoi_membership[up] != current_seed { neighbors = neighbors + 1; }
                if voronoi_membership[down] != current_seed { neighbors = neighbors + 1; }

                if neighbors >= 2 {
                    self.map.set_floor(cx, cy);
                    proof {
                        self.map.lemma_idx_bounds(cx as int, cy as int);
                    }
                }
                cx = cx + 1;
            }
            self.take_snapshot();
            cy = cy + 1;
        }

        // pick a start on floor, repair connectivity, stamp the exit
        ensure_floor_exists(&mut self.map);
        let start = find_starting_floor(&self.map);
        self.starting_position = start;

        let _exit = finalize_exit(&mut self.map, start.x, start.y);
        self.take_snapshot();

        self.noise_areas = generate_voronoi_spawn_regions(&self.map, rng);
    }

    /// A copy of the finished map.
    pub fn get_map(&self) -> (m: Grid)
        ensures
            m.width == self.map.width,
            m.height == self.map.height,
            m.depth == self.map.depth,
            m.tiles@ == self.map.tiles@,
    {
        self.map.clone()
    }

    /// The chosen starting position.
    pub fn get_starting_position(&self) -> (p: Position)
        ensures
            p == self.starting_position,
    {
        self.starting_position
    }
}

} // verus!
