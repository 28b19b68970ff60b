//! The diffusion-limited-aggregation generator: seed a small floor cross at
//! the center, then repeatedly walk a digger until it meets the existing
//! structure and paint where it stopped, until a target share of the map is
//! floor. Three walk strategies and an optional mirror symmetry give the
//! preset variants.

use vstd::prelude::*;
use crate::grid::{Grid, Position, MAP_WIDTH, MAP_HEIGHT, MAX_DIM};
use crate::rng::RandomStream;
use crate::tile::{walkable, TileType};
use crate::reach::{no_stairs, fully_connected, single_stairs};
use crate::connectivity::finalize_exit;
use crate::regions::{generate_voronoi_spawn_regions, regions_wf};
use crate::drawing::{Symmetry, paint};
use crate::geometry::line_points;
use crate::snapshot::build_snapshot;

verus! {

/// The walk strategy a diffusion-limited-aggregation build uses.
#[derive(PartialEq, Eq, Structural, Copy, Clone, Debug)]
pub enum DLAAlgorithm {
    WalkInwards,
    WalkOutwards,
    CentralAttractor,
}

pub struct DLABuilder {
    pub map: Grid,
    pub starting_position: Position,
    pub depth: i32,
    pub history: Vec<Grid>,
    pub noise_areas: Vec<(i32, Vec<usize>)>,
    pub algorithm: DLAAlgorithm,
    pub brush_size: i32,
    pub symmetry: Symmetry,
    pub floor_percent: i32,
    pub show_snapshots: bool,
}

impl DLABuilder {
    /// The builder's map is well-formed and large enough for digger walks,
    /// and its settings are within their working ranges.
    pub open spec fn wf(&self) -> bool {
        &&& self.map.inv()
        &&& self.map.width >= 8
        &&& self.map.height >= 8
        &&& 1 <= self.brush_size <= 16
        &&& 1 <= self.floor_percent <= 100
    }

    /// A builder with explicit settings over the default-sized all-wall map.
    pub fn create(
        new_depth: i32,
        algorithm: DLAAlgorithm,
        symmetry: Symmetry,
        brush_size: i32,
        floor_percent: i32,
    ) -> (r: DLABuilder)
        requires
            1 <= brush_size <= 16,
            1 <= floor_percent <= 100,
        ensures
            r.wf(),
            r.map.width == MAP_WIDTH,
            r.map.height == MAP_HEIGHT,
            r.map.depth == new_depth,
            r.depth == new_depth,
            no_stairs(r.map),
            r.algorithm == algorithm,
            r.symmetry == symmetry,
            r.brush_size == brush_size,
            r.floor_percent == floor_percent,
    {
        DLABuilder {
            map: Grid::new(MAP_WIDTH, MAP_HEIGHT, new_depth),
            starting_position: Position { x: 0, y: 0 },
            depth: new_depth,
            history: Vec::new(),
            noise_areas: Vec::new(),
            algorithm,
            brush_size,
            symmetry,
            floor_percent,
            show_snapshots: false,
        }
    }

    /// The inward-walk preset: diggers wander until they hit the structure.
    pub fn walk_inwards(new_depth: i32) -> (r: DLABuilder)
        ensures
            r.wf(),
            no_stairs(r.map),
            r.depth == new_depth,
            r.map.width == MAP_WIDTH,
            r.map.height == MAP_HEIGHT,
            r.map.depth == new_depth,
            r.algorithm == DLAAlgorithm::WalkInwards,
            r.symmetry == Symmetry::NoSymmetry,
            r.brush_size == 1,
            r.floor_percent == 25,
    {
        DLABuilder::create(new_depth, DLAAlgorithm::WalkInwards, Symmetry::NoSymmetry, 1, 25)
    }

    /// The outward-walk preset: diggers leave the structure and dig outside it.
    pub fn walk_outwards(new_depth: i32) -> (r: DLABuilder)
        ensures
            r.wf(),
            no_stairs(r.map),
            r.depth == new_depth,
            r.map.width == MAP_WIDTH,
            r.map.height == MAP_HEIGHT,
            r.map.depth == new_depth,
            r.algorithm == DLAAlgorithm::WalkOutwards,
            r.symmetry == Symmetry::NoSymmetry,
            r.brush_size == 2,
            r.floor_percent == 25,
    {
        DLABuilder::create(new_depth, DLAAlgorithm::WalkOutwards, Symmetry::NoSymmetry, 2, 25)
    }

    /// The central-attractor preset: diggers walk straight lines toward the center.
    pub fn central_attractor(new_depth: i32) -> (r: DLABuilder)
        ensures
            r.wf(),
            no_stairs(r.map),
            r.depth == new_depth,
            r.map.width == MAP_WIDTH,
            r.map.height == MAP_HEIGHT,
            r.map.depth == new_depth,
            r.algorithm == DLAAlgorithm::CentralAttractor,
            r.symmetry == Symmetry::NoSymmetry,
            r.brush_size == 2,
            r.floor_percent == 25,
    {
        DLABuilder::create(new_depth, DLAAlgorithm::CentralAttractor, Symmetry::NoSymmetry, 2, 25)
    }

    /// The insectoid preset: central attraction with horizontal mirroring.
    pub fn insectoid(new_depth: i32) -> (r: DLABuilder)
        ensures
            r.wf(),
            no_stairs(r.map),
            r.depth == new_depth,
            r.map.width == MAP_WIDTH,
            r.map.height == MAP_HEIGHT,
            r.map.depth == new_depth,
            r.algorithm == DLAAlgorithm::CentralAttractor,
            r.symmetry == Symmetry::Horizontal,
            r.brush_size == 2,
            r.floor_percent == 25,
    {
        DLABuilder::create(new_depth, DLAAlgorithm::CentralAttractor, Symmetry::Horizontal, 2, 25)
    }

    /// Capture a visualization frame if the visualizer is enabled.
    pub fn take_snapshot(&mut self)
        requires
            old(self).wf(),
        ensures
            final(self).wf(),
            final(self).map == old(self).map,
            final(self).starting_position == old(self).starting_position,
            final(self).depth == old(self).depth,
            final(self).algorithm == old(self).algorithm,
            final(self).show_snapshots == old(self).show_snapshots,
    {
        match build_snapshot(&self.map, self.show_snapshots) {
            Option::Some(t) => {
                self.history.push(t);
            },
            Option::None => {},
        }
    }

    /// One clamped random step of a digger within the walkable margin.
    pub fn stagger(&self, direction: i32, digger_x: i32, digger_y: i32) -> (r: (i32, i32))
        requires
            self.wf(),
            2 <= digger_x <= self.map.width - 2,
            2 <= digger_y <= self.map.height - 2,
        ensures
            2 <= r.0 <= self.map.width - 2,
            2 <= r.1 <= self.map.height - 2,
    {
        match direction {
            1 => if digger_x > 2 { (digger_x - 1, digger_y) } else { (digger_x, digger_y) },
            2 => if digger_x < self.map.width - 2 { (digger_x + 1, digger_y) } else {
                (digger_x, digger_y)
            },
            3 => if digger_y > 2 { (digger_x, digger_y - 1) } else { (digger_x, digger_y) },
            _ => if digger_y < self.map.height - 2 { (digger_x, digger_y + 1) } else {
                (digger_x, digger_y)
            },
        }
    }

    /// Walk a digger from a random spot until it lands on existing floor;
    /// the tile it stood on just before is where it digs.
    pub fn process_walk_inwards(&self, rng: &mut RandomStream) -> (r: (i32, i32))
        requires
            self.wf(),
        ensures
            2 <= r.0 <= self.map.width - 2,
            2 <= r.1 <= self.map.height - 2,
    {
        let mut digger_x = rng.roll_dice(1, self.map.width - 3) + 1;
        let mut digger_y = rng.roll_dice(1, self.map.height - 3) + 1;
        let mut prev_x = digger_x;
        let mut prev_y = digger_y;
        let mut t = self.map.get_tile(digger_x, digger_y);
        let mut fuel: i32 = 1000000;
        while t == TileType::Wall && fuel > 0
            invariant
                self.wf(),
                2 <= digger_x <= self.map.width - 2,
                2 <= digger_y <= self.map.height - 2,
                2 <= prev_x <= self.map.width - 2,
                2 <= prev_y <= self.map.height - 2,
            decreases fuel,
        {
            fuel = fuel - 1;
            prev_x = digger_x;
            prev_y = digger_y;
            let direction = rng.roll_dice(1, 4);
            let stagger = self.stagger(direction, digger_x, digger_y);
            digger_x = stagger.0;
            digger_y = stagger.1;
            t = self.map.get_tile(digger_x, digger_y);
        }
        (prev_x, prev_y)
    }

    /// Walk a digger from the start until it leaves the existing floor;
    /// where it first stands on wall is where it digs.
    pub fn process_walk_outwards(&self, rng: &mut RandomStream) -> (r: (i32, i32))
        requires
            self.wf(),
            2 <= self.starting_position.x <= self.map.width - 2,
            2 <= self.starting_position.y <= self.map.height - 2,
        ensures
            2 <= r.0 <= self.map.width - 2,
            2 <= r.1 <= self.map.height - 2,
    {
        let mut digger_x = self.starting_position.x;
        let mut digger_y = self.starting_position.y;
        let mut t = self.map.get_tile(digger_x, digger_y);
        let mut fuel: i32 = 1000000;
        while t == TileType::Floor && fuel > 0
            invariant
                self.wf(),
                2 <= digger_x <= self.map.width - 2,
                2 <= digger_y <= self.map.height - 2,
            decreases fuel,
        {
            fuel = fuel - 1;
            let direction = rng.roll_dice(1, 4);
            let stagger = self.stagger(direction, digger_x, digger_y);
            digger_x = stagger.0;
            digger_y = stagger.1;
            t = self.map.get_tile(digger_x, digger_y);
        }
        (digger_x, digger_y)
    }

    /// Walk a digger from a random spot straight toward the start until it
    /// meets floor; the tile just before is where it digs.
    pub fn process_central_attractor(&self, rng: &mut RandomStream) -> (r: (i32, i32))
        requires
            self.wf(),
            2 <= self.starting_position.x <= self.map.width - 2,
            2 <= self.starting_position.y <= self.map.height - 2,
        ensures
            2 <= r.0 <= self.map.width - 2,
            2 <= r.1 <= self.map.height - 2,
    {
        let mut digger_x = rng.roll_dice(1, self.map.width - 3) + 1;
        let mut digger_y = rng.roll_dice(1, self.map.height - 3) + 1;
        let mut prev_x = digger_x;
        let mut prev_y = digger_y;

        let path = line_points(
            digger_x,
            digger_y,
            self.starting_position.x,
            self.starting_position.y,
        );
        let mut step: usize = 0;
        let mut t = self.map.get_tile(digger_x, digger_y);
        while t == TileType::Wall && step < path.len()
            invariant
                self.wf(),
                2 <= digger_x <= self.map.width - 2,
                2 <= digger_y <= self.map.height - 2,
                2 <= prev_x <= self.map.width - 2,
                2 <= prev_y <= self.map.height - 2,
                step <= path@.len(),
            decreases path@.len() - step,
        {
            prev_x = digger_x;
            prev_y = digger_y;
            let p = path[step];
            step = step + 1;
            // the rasterized line stays inside the endpoints' bounding box,
            // but only an in-margin point is taken as the next digger spot
            if 2 <= p.0 && p.0 <= self.map.width - 2 && 2 <= p.1 && p.1 <= self.map.height - 2 {
                digger_x = p.0;
                digger_y = p.1;
                t = self.map.get_tile(digger_x, digger_y);
            }
        }
        (prev_x, prev_y)
    }

    /// Build the map: seed a floor cross at the center, dig until the floor
    /// share reaches the target, then repair connectivity and stamp the exit.
    /// Afterwards every walkable tile is reachable from the starting position
    /// and exactly one StairsDown tile exists.
    pub fn build(&mut self, rng: &mut RandomStream)
        requires
            old(self).wf(),
            no_stairs(old(self).map),
        ensures
            final(self).wf(),
            final(self).map.width == old(self).map.width,
            final(self).map.height == old(self).map.height,
            final(self).map.depth == old(self).map.depth,
            final(self).depth == old(self).depth,
            fully_connected(
                final(self).map,
                final(self).starting_position.x as int,
                final(self).starting_position.y as int,
            ),
            single_stairs(final(self).map),
            // the walk always starts digging at the map center
            final(self).starting_position.x == old(self).map.width / 2,
            final(self).starting_position.y == old(self).map.height / 2,
            final(self).map.in_bounds(
                final(self).starting_position.x as int,
                final(self).starting_position.y as int,
            ),
            walkable(final(self).map.tiles@[final(self).map.idx(
                final(self).starting_position.x as int,
                final(self).starting_position.y as int,
            )]),
            regions_wf(final(self).noise_areas@, final(self).map),
    {
        let start_x = self.map.width / 2;
        let start_y = self.map.height / 2;
        self.starting_position = Position { x: start_x, y: start_y };
        self.take_snapshot();

        self.map.set_floor(start_x, start_y);
        self.map.set_floor(start_x - 1, start_y);
        self.map.set_floor(start_x + 1, start_y);
        self.map.set_floor(start_x, start_y - 1);
        self.map.set_floor(start_x, start_y + 1);
        proof {
            self.map.lemma_idx_bounds(start_x as int, start_y as int);
            self.map.lemma_idx_bounds((start_x - 1) as int, start_y as int);
            self.map.lemma_idx_bounds((start_x + 1) as int, start_y as int);
            self.map.lemma_idx_bounds(start_x as int, (start_y - 1) as int);
            self.map.lemma_idx_bounds(start_x as int, (start_y + 1) as int);
        }

        proof {
            assert((self.map.width as int) * (self.map.height as int) <= 512 * 512)
                by (nonlinear_arith)
                requires
                    0 < self.map.width as int <= 512,
                    0 < self.map.height as int <= 512,
            ;
        }
        let total_tiles = self.map.width * self.map.height;
        proof {
            assert(self.floor_percent * (total_tiles as int) <= 100 * 262144)
                by (nonlinear_arith)
                requires
                    0 < self.floor_percent <= 100,
                    0 <= total_tiles as int <= 262144,
            ;
        }
        let desired_floor_tiles = ((self.floor_percent * total_tiles) / 100) as usize;
        let mut floor_tile_count = self.map.count_floor();
        let mut iterations: u32 = 0;
        let mut diggers_left: i32 = 1000000;

        while floor_tile_count < desired_floor_tiles && diggers_left > 0
            invariant
                self.wf(),
                self.map.width == old(self).map.width,
                self.map.height == old(self).map.height,
                self.map.depth == old(self).map.depth,
                self.depth == old(self).depth,
                self.show_snapshots == old(self).show_snapshots,
                self.starting_position.x == self.map.width / 2,
                self.starting_position.y == self.map.height / 2,
                self.algorithm == old(self).algorithm,
                no_stairs(self.map),
                self.map.tiles@[self.map.idx(
                    self.starting_position.x as int,
                    self.starting_position.y as int,
                )] == TileType::Floor,
            decreases diggers_left,
        {
            diggers_left = diggers_left - 1;
            let target = match self.algorithm {
                DLAAlgorithm::WalkInwards => self.process_walk_inwards(rng),
                DLAAlgorithm::WalkOutwards => self.process_walk_outwards(rng),
                DLAAlgorithm::CentralAttractor => self.process_central_attractor(rng),
            };
            let ghost pre = self.map;
            paint(&mut self.map, self.symmetry, self.brush_size, target.0, target.1);
            proof {
                self.map.lemma_idx_bounds(
                    self.starting_position.x as int,
                    self.starting_position.y as int,
                );
            }

            if iterations % 10 == 0 {
                self.take_snapshot();
            }
            if iterations < 1000000 {
                iterations = iterations + 1;
            }

            floor_tile_count = self.map.count_floor();
        }

        let _exit = finalize_exit(&mut self.map, start_x, start_y);
        self.take_snapshot();

        self.noise_areas = generate_voronoi_spawn_regions(&self.map, rng);
    }

    /// A copy of the finished map.
    pub fn get_map(&self) -> (m: Grid)
        ensures
            m.width == self.map.width,
            m.height == self.map.height,
            m.depth == self.map.depth,
            m.tiles@ == self.map.tiles@,
    {
        self.map.clone()
    }

    /// The chosen starting position.
    pub fn get_starting_position(&self) -> (p: Position)
        ensures
            p == self.starting_position,
    {
        self.starting_position
    }
}

} // verus!
