//! The cellular-automata cave generator: seed the interior with random noise,
//! smooth it over a fixed number of generations with the rule "a tile becomes
//! wall on more than four or exactly zero wall neighbors", then repair
//! connectivity and stamp the most distant reachable tile as the exit.

use vstd::prelude::*;
use crate::grid::{Grid, Position, MAP_WIDTH, MAP_HEIGHT, MAX_DIM};
use crate::rng::RandomStream;
use crate::tile::{walkable, TileType};
use crate::reach::{no_stairs, fully_connected, single_stairs};
use crate::connectivity::{ensure_floor_exists, find_starting_floor, finalize_exit};
use crate::regions::{generate_voronoi_spawn_regions, regions_wf};
use crate::snapshot::build_snapshot;

verus! {

/// How many smoothing generations are applied to the initial noise.
pub const AUTOMATA_GENERATIONS: i32 = 15;

/// One when the tile at (x, y) is wall, zero otherwise.
pub open spec fn wall_at(g: Grid, x: int, y: int) -> int {
    if g.tiles@[g.idx(x, y)] == TileType::Wall { 1int } else { 0int }
}

/// How many of the eight neighbors of (x, y) are wall.
pub open spec fn wall_neighbors(g: Grid, x: int, y: int) -> int {
    wall_at(g, x - 1, y) + wall_at(g, x + 1, y)
        + wall_at(g, x, y - 1) + wall_at(g, x, y + 1)
        + wall_at(g, x - 1, y - 1) + wall_at(g, x + 1, y - 1)
        + wall_at(g, x - 1, y + 1) + wall_at(g, x + 1, y + 1)
}

/// The smoothing rule: a tile becomes wall when more than four or exactly
/// zero of its eight neighbors are wall, else floor.
pub open spec fn smoothed_tile(g: Grid, x: int, y: int) -> TileType {
    if wall_neighbors(g, x, y) > 4 || wall_neighbors(g, x, y) == 0 {
        TileType::Wall
    } else {
        TileType::Floor
    }
}

pub struct CellularAutomataBuilder {
    pub map: Grid,
    pub starting_position: Position,
    pub depth: i32,
    pub history: Vec<Grid>,
    pub noise_areas: Vec<(i32, Vec<usize>)>,
    pub show_snapshots: bool,
}

impl CellularAutomataBuilder {
    /// The builder's map is well-formed and large enough to smooth.
    pub open spec fn wf(&self) -> bool {
        &&& self.map.inv()
        &&& self.map.width >= 5
        &&& self.map.height >= 5
    }

    /// A builder over the default-sized all-wall map for the given depth:
    /// no generation work has run, so every tile is wall, the start rests at
    /// the origin, and the history and region lists are empty.
    pub fn new(new_depth: i32) -> (r: CellularAutomataBuilder)
        ensures
            r.wf(),
            r.map.width == MAP_WIDTH,
            r.map.height == MAP_HEIGHT,
            r.map.depth == new_depth,
            r.depth == new_depth,
            no_stairs(r.map),
            forall|i: int| 0 <= i < r.map.tiles@.len()
                ==> r.map.tiles@[i] == TileType::Wall,
            r.starting_position == (Position { x: 0, y: 0 }),
            r.history@.len() == 0,
            r.noise_areas@.len() == 0,
            !r.show_snapshots,
    {
        CellularAutomataBuilder::with_dimensions(MAP_WIDTH, MAP_HEIGHT, new_depth)
    }

    /// A builder over an all-wall map of the given dimensions.
    pub fn with_dimensions(width: i32, height: i32, new_depth: i32) -> (r: CellularAutomataBuilder)
        requires
            5 <= width <= MAX_DIM,
            5 <= height <= MAX_DIM,
        ensures
            r.wf(),
            r.map.width == width,
            r.map.height == height,
            r.map.depth == new_depth,
            r.depth == new_depth,
            no_stairs(r.map),
            forall|i: int| 0 <= i < r.map.tiles@.len()
                ==> r.map.tiles@[i] == TileType::Wall,
            r.starting_position == (Position { x: 0, y: 0 }),
            r.history@.len() == 0,
            r.noise_areas@.len() == 0,
            !r.show_snapshots,
    {
        CellularAutomataBuilder {
            map: Grid::new(width, height, new_depth),
            starting_position: Position { x: 0, y: 0 },
            depth: new_depth,
            history: Vec::new(),
            noise_areas: Vec::new(),
            show_snapshots: false,
        }
    }

    /// Capture a visualization frame if the visualizer is enabled.
    pub fn take_snapshot(&mut self)
        requires
            old(self).wf(),
        ensures
            final(self).wf(),
            final(self).map == old(self).map,
            final(self).starting_position == old(self).starting_position,
            final(self).depth == old(self).depth,
            final(self).noise_areas == old(self).noise_areas,
            final(self).show_snapshots == old(self).show_snapshots,
    {
        match build_snapshot(&self.map, self.show_snapshots) {
            Option::Some(t) => {
                self.history.push(t);
            },
            Option::None => {},
        }
    }

    /// Seed the interior with random noise: each interior tile becomes floor
    /// on a roll above 55 of 100, else wall.
    fn random_fill(&mut self, rng: &mut RandomStream)
        requires
            old(self).wf(),
            no_stairs(old(self).map),
        ensures
            final(self).wf(),
            final(self).map.width == old(self).map.width,
            final(self).map.height == old(self).map.height,
            final(self).map.depth == old(self).map.depth,
            final(self).depth == old(self).depth,
            final(self).starting_position == old(self).starting_position,
            final(self).show_snapshots == old(self).show_snapshots,
            no_stairs(final(self).map),
    {
        let w = self.map.width;
        let h = self.map.height;
        let mut y: i32 = 1;
        while y < h - 1
            invariant
                self.wf(),
                w == self.map.width,
                h == self.map.height,
                self.map.depth == old(self).map.depth,
                self.depth == old(self).depth,
                self.starting_position == old(self).starting_position,
                self.show_snapshots == old(self).show_snapshots,
                1 <= y <= h - 1,
                no_stairs(self.map),
            decreases h - y,
        {
            let mut x: i32 = 1;
            while x < w - 1
                invariant
                    self.wf(),
                    w == self.map.width,
                    h == self.map.height,
                    self.map.depth == old(self).map.depth,
                    self.depth == old(self).depth,
                    self.starting_position == old(self).starting_position,
                    self.show_snapshots == old(self).show_snapshots,
                    1 <= y < h - 1,
                    1 <= x <= w - 1,
                    no_stairs(self.map),
                decreases w - x,
            {
                let roll = rng.roll_dice(1, 100);
                if roll > 55 {
                    self.map.set_floor(x, y);
                } else {
                    self.map.set_wall(x, y);
                }
                proof {
                    self.map.lemma_idx_bounds(x as int, y as int);
                }
                x = x + 1;
            }
            y = y + 1;
        }
    }

    /// Apply one smoothing generation: every interior tile becomes wall
    /// exactly when it has more than four or exactly zero wall neighbors
    /// under 8-connectivity in the old map, else floor; the border rows and
    /// columns keep their tiles.
    pub fn apply_generation(&mut self)
        requires
            old(self).wf(),
            no_stairs(old(self).map),
        ensures
            final(self).wf(),
            final(self).map.width == old(self).map.width,
            final(self).map.height == old(self).map.height,
            final(self).map.depth == old(self).map.depth,
            final(self).depth == old(self).depth,
            final(self).starting_position == old(self).starting_position,
            final(self).show_snapshots == old(self).show_snapshots,
            no_stairs(final(self).map),
            forall|a: int, b: int| old(self).map.in_bounds(a, b)
                ==> final(self).map.tiles@[old(self).map.idx(a, b)] == (
                    if 1 <= a < old(self).map.width - 1 && 1 <= b < old(self).map.height - 1 {
                        smoothed_tile(old(self).map, a, b)
                    } else {
                        old(self).map.tiles@[old(self).map.idx(a, b)]
                    }),
    {
        let mut new_tiles = self.map.tiles.clone();
        proof {
            assert(new_tiles@ =~= self.map.tiles@);
        }
        let w = self.map.width;
        let h = self.map.height;
        let wu = w as usize;
        let mut y: i32 = 1;
        while y < h - 1
            invariant
                self.wf(),
                self.map == old(self).map,
                w == self.map.width,
                h == self.map.height,
                wu == w as usize,
                1 <= y <= h - 1,
                no_stairs(self.map),
                new_tiles@.len() == self.map.tiles@.len(),
                forall|i: int| 0 <= i < new_tiles@.len()
                    ==> #[trigger] new_tiles@[i] != TileType::StairsDown,
                forall|a: int, b: int| self.map.in_bounds(a, b)
                    ==> new_tiles@[self.map.idx(a, b)] == (
                        if 1 <= a < w - 1 && 1 <= b < y {
                            smoothed_tile(self.map, a, b)
                        } else {
                            self.map.tiles@[self.map.idx(a, b)]
                        }),
            decreases h - y,
        {
            let mut x: i32 = 1;
            while x < w - 1
                invariant
                    self.wf(),
                    self.map == old(self).map,
                    w == self.map.width,
                    h == self.map.height,
                    wu == w as usize,
                    1 <= y < h - 1,
                    1 <= x <= w - 1,
                    no_stairs(self.map),
                    new_tiles@.len() == self.map.tiles@.len(),
                    forall|i: int| 0 <= i < new_tiles@.len()
                        ==> #[trigger] new_tiles@[i] != TileType::StairsDown,
                    forall|a: int, b: int| self.map.in_bounds(a, b)
                        ==> new_tiles@[self.map.idx(a, b)] == (
                            if 1 <= a < w - 1 && 1 <= b < h - 1
                                && (b < y || (b == y && a < x)) {
                                smoothed_tile(self.map, a, b)
                            } else {
                                self.map.tiles@[self.map.idx(a, b)]
                            }),
                decreases w - x,
            {
                let i = self.map.xy_idx(x, y);
                proof {
                    assert((self.map.width as int) * (self.map.height as int) <= 512 * 512)
                        by (nonlinear_arith)
                        requires
                            0 < self.map.width as int <= 512,
                            0 < self.map.height as int <= 512,
                    ;
                    self.map.lemma_idx_bounds((x - 1) as int, y as int);
                    self.map.lemma_idx_bounds((x + 1) as int, y as int);
                    self.map.lemma_idx_bounds(x as int, (y - 1) as int);
                    self.map.lemma_idx_bounds(x as int, (y + 1) as int);
                    self.map.lemma_idx_bounds((x - 1) as int, (y - 1) as int);
                    self.map.lemma_idx_bounds((x + 1) as int, (y - 1) as int);
                    self.map.lemma_idx_bounds((x - 1) as int, (y + 1) as int);
                    self.map.lemma_idx_bounds((x + 1) as int, (y + 1) as int);
                    assert((y as int - 1) * (w as int) == y as int * (w as int) - w as int)
                        by (nonlinear_arith);
                    assert((y as int + 1) * (w as int) == y as int * (w as int) + w as int)
                        by (nonlinear_arith);
                    assert(i - wu == self.map.idx(x as int, (y - 1) as int));
                    assert(i + wu == self.map.idx(x as int, (y + 1) as int));
                }
                let mut neighbors: i32 = 0;
                if self.map.tiles[i - 1] == TileType::Wall { neighbors = neighbors + 1; }
                if self.map.tiles[i + 1] == TileType::Wall { neighbors = neighbors + 1; }
                if self.map.tiles[i - wu] == TileType::Wall { neighbors = neighbors + 1; }
                if self.map.tiles[i + wu] == TileType::Wall { neighbors = neighbors + 1; }
                if self.map.tiles[i - (wu - 1)] == TileType::Wall { neighbors = neighbors + 1; }
                if self.map.tiles[i - (wu + 1)] == TileType::Wall { neighbors = neighbors + 1; }
                if self.map.tiles[i + (wu - 1)] == TileType::Wall { neighbors = neighbors + 1; }
                if self.map.tiles[i + (wu + 1)] == TileType::Wall { neighbors = neighbors + 1; }

                proof {
                    // the eight offsets name exactly the eight neighbor tiles
                    assert(i - 1 == self.map.idx((x - 1) as int, y as int));
                    assert(i + 1 == self.map.idx((x + 1) as int, y as int));
                    assert(i - (wu - 1) == self.map.idx((x + 1) as int, (y - 1) as int));
                    assert(i - (wu + 1) == self.map.idx((x - 1) as int, (y - 1) as int));
                    assert(i + (wu - 1) == self.map.idx((x - 1) as int, (y + 1) as int));
                    assert(i + (wu + 1) == self.map.idx((x + 1) as int, (y + 1) as int));
                    assert(neighbors == wall_neighbors(self.map, x as int, y as int));
                }
                let ghost nt_pre = new_tiles@;
                if neighbors > 4 || neighbors == 0 {
                    new_tiles.set(i, TileType::Wall);
                } else {
                    new_tiles.set(i, TileType::Floor);
                }
                proof {
                    assert(new_tiles@[i as int]
                        == smoothed_tile(self.map, x as int, y as int));
                    assert forall|a: int, b: int|
                        self.map.in_bounds(a, b) && (a != x as int || b != y as int)
                        implies self.map.idx(a, b) != i as int
                            && new_tiles@[self.map.idx(a, b)]
                                == nt_pre[self.map.idx(a, b)] by {
                        self.map.lemma_idx_bounds(a, b);
                        if self.map.idx(a, b) == i as int {
                            self.map.lemma_idx_injective(a, b, x as int, y as int);
                        }
                    }
                }
                x = x + 1;
            }
            y = y + 1;
        }
        self.map.tiles = new_tiles;
    }

    /// Build the cave: noise fill, smoothing generations, connectivity repair
    /// with exit placement, and spawn-region grouping. Afterwards every
    /// walkable tile is reachable from the starting position and exactly one
    /// StairsDown tile exists.
    pub fn build(&mut self, rng: &mut RandomStream)
        requires
            old(self).wf(),
            no_stairs(old(self).map),
        ensures
            final(self).wf(),
            final(self).map.width == old(self).map.width,
            final(self).map.height == old(self).map.height,
            final(self).map.depth == old(self).map.depth,
            final(self).depth == old(self).depth,
            fully_connected(
                final(self).map,
                final(self).starting_position.x as int,
                final(self).starting_position.y as int,
            ),
            single_stairs(final(self).map),
            final(self).map.in_bounds(
                final(self).starting_position.x as int,
                final(self).starting_position.y as int,
            ),
            walkable(final(self).map.tiles@[final(self).map.idx(
                final(self).starting_position.x as int,
                final(self).starting_position.y as int,
            )]),
            regions_wf(final(self).noise_areas@, final(self).map),
    {
        self.random_fill(rng);
        self.take_snapshot();

        let mut gen: i32 = 0;
        while gen < AUTOMATA_GENERATIONS
            invariant
                self.wf(),
                self.map.width == old(self).map.width,
                self.map.height == old(self).map.height,
                self.map.depth == old(self).map.depth,
                self.depth == old(self).depth,
                self.show_snapshots == old(self).show_snapshots,
                0 <= gen <= AUTOMATA_GENERATIONS,
                no_stairs(self.map),
            decreases AUTOMATA_GENERATIONS - gen,
        {
            self.apply_generation();
            self.take_snapshot();
            gen = gen + 1;
        }

        // if smoothing eroded every floor tile, carve the center so a start exists
        ensure_floor_exists(&mut self.map);
        let start = find_starting_floor(&self.map);
        self.starting_position = start;

        let _exit = finalize_exit(&mut self.map, start.x, start.y);
        self.take_snapshot();

        let ghost stamped = self.map;
        self.noise_areas = generate_voronoi_spawn_regions(&self.map, rng);
        proof {
            assert(self.map == stamped);
        }
    }

    /// A copy of the finished map.
    pub fn get_map(&self) -> (m: Grid)
        ensures
            m.width == self.map.width,
            m.height == self.map.height,
            m.depth == self.map.depth,
            m.tiles@ == self.map.tiles@,
    {
        self.map.clone()
    }

    /// The chosen starting position.
    pub fn get_starting_position(&self) -> (p: Position)
        ensures
            p == self.starting_position,
    {
        self.starting_position
    }
}

} // verus!
