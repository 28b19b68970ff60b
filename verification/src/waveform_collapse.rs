//! The wave-function-collapse layer: take another generator's finished map,
//! slice it into patterns, derive adjacency constraints, and solve a fresh
//! map from them, restarting on contradiction up to a fixed attempt ceiling
//! and falling back to the derived map itself when every attempt fails.
//! Connectivity repair and exit placement run on whatever map results.

use vstd::prelude::*;
use crate::grid::{Grid, Position};
use crate::rng::RandomStream;
use crate::tile::{walkable, TileType};
use crate::reach::{no_stairs, fully_connected, single_stairs};
use crate::connectivity::{clear_stairs, ensure_floor_exists, find_starting_floor, finalize_exit};
use crate::regions::{generate_voronoi_spawn_regions, regions_wf};
use crate::constraints::{build_patterns, patterns_to_constraints, render_pattern_to_map};
use crate::map_chunk::{MapChunk, constraints_ok};
use crate::solver::Solver;
use crate::snapshot::build_snapshot;

verus! {

/// The chunk edge length the layer extracts and solves with.
pub const CHUNK_SIZE: i32 = 8;

/// How many solve attempts are made before falling back to the derived map.
pub const MAX_SOLVE_ATTEMPTS: i32 = 16;

pub struct WaveformCollapseBuilder {
    pub map: Grid,
    pub starting_position: Position,
    pub depth: i32,
    pub history: Vec<Grid>,
    pub noise_areas: Vec<(i32, Vec<usize>)>,
    pub show_snapshots: bool,
}

impl WaveformCollapseBuilder {
    /// The builder's map is well-formed and large enough for chunking and
    /// the pattern gallery.
    pub open spec fn wf(&self) -> bool {
        &&& self.map.inv()
        &&& self.map.width >= 10
        &&& self.map.height >= 10
    }

    /// A builder whose working map matches the given dimensions.
    pub fn new(width: i32, height: i32, new_depth: i32) -> (r: WaveformCollapseBuilder)
        requires
            10 <= width <= crate::grid::MAX_DIM,
            10 <= height <= crate::grid::MAX_DIM,
        ensures
            r.wf(),
            r.map.width == width,
            r.map.height == height,
            r.map.depth == new_depth,
            r.depth == new_depth,
    {
        WaveformCollapseBuilder {
            map: Grid::new(width, height, new_depth),
            starting_position: Position { x: 0, y: 0 },
            depth: new_depth,
            history: Vec::new(),
            noise_areas: Vec::new(),
            show_snapshots: false,
        }
    }

    /// Capture a visualization frame if the visualizer is enabled.
    pub fn take_snapshot(&mut self)
        requires
            old(self).wf(),
        ensures
            final(self).wf(),
            final(self).map == old(self).map,
            final(self).starting_position == old(self).starting_position,
            final(self).depth == old(self).depth,
            final(self).show_snapshots == old(self).show_snapshots,
    {
        match build_snapshot(&self.map, self.show_snapshots) {
            Option::Some(t) => {
                self.history.push(t);
            },
            Option::None => {},
        }
    }

    /// Render every constraint pattern into gallery snapshots.
    fn render_tile_gallery(&mut self, constraints: &Vec<MapChunk>, chunk_size: i32)
        requires
            old(self).wf(),
            1 <= chunk_size <= 64,
            chunk_size + 2 <= old(self).map.width,
            chunk_size + 2 <= old(self).map.height,
            constraints_ok(constraints@, chunk_size as int),
        ensures
            final(self).wf(),
            final(self).map.width == old(self).map.width,
            final(self).map.height == old(self).map.height,
            final(self).depth == old(self).depth,
            final(self).show_snapshots == old(self).show_snapshots,
            final(self).starting_position == old(self).starting_position,
    {
        let w = self.map.width;
        let h = self.map.height;
        self.map = Grid::new(w, h, 0);
        let mut counter: usize = 0;
        let mut x: i32 = 1;
        let mut y: i32 = 1;
        let n = constraints.len();
        while counter < n
            invariant
                self.wf(),
                self.map.width == w,
                self.map.height == h,
                self.depth == old(self).depth,
                self.show_snapshots == old(self).show_snapshots,
                self.starting_position == old(self).starting_position,
                1 <= chunk_size <= 64,
                chunk_size + 2 <= w,
                chunk_size + 2 <= h,
                n == constraints@.len(),
                counter <= n,
                constraints_ok(constraints@, chunk_size as int),
                1 <= x,
                x + chunk_size <= w,
                1 <= y,
                y + chunk_size <= h,
            decreases n - counter,
        {
            render_pattern_to_map(&mut self.map, &constraints[counter], chunk_size, x, y);

            x = x + chunk_size + 1;
            if x + chunk_size > w {
                x = 1;
                y = y + chunk_size + 1;
                if y + chunk_size > h {
                    // the gallery page is full: snapshot it and start a new one
                    self.take_snapshot();
                    self.map = Grid::new(w, h, 0);
                    x = 1;
                    y = 1;
                }
            }
            counter = counter + 1;
        }
        self.take_snapshot();
        let d = self.depth;
        self.map = Grid::new(w, h, d);
    }

    /// Build the layered map from another generator's finished map: extract
    /// patterns with flips and deduplication, derive constraints, and solve a
    /// fresh map, restarting on contradiction up to the attempt ceiling and
    /// falling back to the derived map when all attempts fail. Afterwards
    /// every walkable tile is reachable from the starting position and
    /// exactly one StairsDown tile exists.
    pub fn build_from_derived(&mut self, derived: &Grid, rng: &mut RandomStream)
        requires
            old(self).wf(),
            derived.inv(),
            derived.width == old(self).map.width,
            derived.height == old(self).map.height,
        ensures
            final(self).wf(),
            final(self).map.width == old(self).map.width,
            final(self).map.height == old(self).map.height,
            final(self).depth == old(self).depth,
            fully_connected(
                final(self).map,
                final(self).starting_position.x as int,
                final(self).starting_position.y as int,
            ),
            single_stairs(final(self).map),
            final(self).map.in_bounds(
                final(self).starting_position.x as int,
                final(self).starting_position.y as int,
            ),
            walkable(final(self).map.tiles@[final(self).map.idx(
                final(self).starting_position.x as int,
                final(self).starting_position.y as int,
            )]),
            regions_wf(final(self).noise_areas@, final(self).map),
    {
        let w = self.map.width;
        let h = self.map.height;
        let d = self.depth;

        // the derived map with its exit removed is the pattern source, and
        // the fallback should every solve attempt fail
        let mut substrate = derived.clone();
        clear_stairs(&mut substrate);
        self.map = substrate.clone();
        self.take_snapshot();

        let patterns = build_patterns(&self.map, CHUNK_SIZE, true, true);
        proof {
            assert((w as int / CHUNK_SIZE as int) * (h as int / CHUNK_SIZE as int) * 4
                <= 64 * 64 * 4) by (nonlinear_arith)
                requires
                    0 <= w as int / CHUNK_SIZE as int <= 64,
                    0 <= h as int / CHUNK_SIZE as int <= 64,
            ;
            assert(w as int / CHUNK_SIZE as int <= 64 && h as int / CHUNK_SIZE as int <= 64)
                by (nonlinear_arith)
                requires w <= 512 && h <= 512 && CHUNK_SIZE == 8 && w >= 1 && h >= 1
            ;
        }
        let constraints = patterns_to_constraints(patterns, CHUNK_SIZE);
        self.render_tile_gallery(&constraints, CHUNK_SIZE);

        self.map = Grid::new(w, h, d);
        let mut solver = Solver::new(constraints, CHUNK_SIZE, &self.map);
        let mut attempts: i32 = MAX_SOLVE_ATTEMPTS;
        let mut solved = false;
        while attempts > 0 && !solved
            invariant
                self.wf(),
                self.map.width == w,
                self.map.height == h,
                self.map.depth == d,
                self.depth == d,
                self.show_snapshots == old(self).show_snapshots,
                solver.core_inv(),
                solver.chunks_x * solver.chunk_size <= w,
                solver.chunks_y * solver.chunk_size <= h,
            decreases attempts,
        {
            attempts = attempts - 1;
            self.map = Grid::new(w, h, d);
            solver.reset(&self.map);
            let mut done = false;
            while !done
                invariant
                    self.wf(),
                    self.map.width == w,
                    self.map.height == h,
                    self.map.depth == d,
                    self.depth == d,
                    self.show_snapshots == old(self).show_snapshots,
                    solver.inv(),
                    solver.fits_map(self.map),
                decreases solver.remaining@.len() + (if done { 0int } else { 1 }),
            {
                done = solver.iteration(&mut self.map, rng);
                if !done {
                    self.take_snapshot();
                }
            }
            self.take_snapshot();
            if solver.possible {
                solved = true;
            }
        }

        if !solved {
            // every attempt hit a contradiction: keep the derived map
            self.map = substrate;
        }

        // whatever map won, repair it and place the exit
        clear_stairs(&mut self.map);
        ensure_floor_exists(&mut self.map);
        let start = find_starting_floor(&self.map);
        self.starting_position = start;

        let _exit = finalize_exit(&mut self.map, start.x, start.y);
        self.take_snapshot();

        self.noise_areas = generate_voronoi_spawn_regions(&self.map, rng);
    }

    /// A copy of the finished map.
    pub fn get_map(&self) -> (m: Grid)
        ensures
            m.width == self.map.width,
            m.height == self.map.height,
            m.depth == self.map.depth,
            m.tiles@ == self.map.tiles@,
    {
        self.map.clone()
    }

    /// The chosen starting position.
    pub fn get_starting_position(&self) -> (p: Position)
        ensures
            p == self.starting_position,
    {
        self.starting_position
    }
}

} // verus!
