//! The drunkard's-walk generator: spawn random-walking diggers that paint
//! floor as they stagger, until a target share of the map is floor. The
//! digger's current tile is temporarily marked StairsDown so snapshots show
//! it; every marker is reset to floor when the digger retires.

use vstd::prelude::*;
use crate::grid::{Grid, Position, MAP_WIDTH, MAP_HEIGHT, MAX_DIM};
use crate::rng::RandomStream;
use crate::tile::{walkable, TileType};
use crate::reach::{no_stairs, fully_connected, single_stairs};
use crate::connectivity::finalize_exit;
use crate::regions::{generate_voronoi_spawn_regions, regions_wf};
use crate::drawing::{Symmetry, paint};
use crate::snapshot::build_snapshot;

verus! {

/// Where each new digger begins its walk.
#[derive(PartialEq, Eq, Structural, Copy, Clone, Debug)]
pub enum DrunkSpawnMode {
    StartingPoint,
    Random,
}

/// The tunable settings of a drunkard's-walk build. `floor_percent` is the
/// targeted share of floor tiles in percent.
#[derive(Copy, Clone)]
pub struct DrunkardSettings {
    pub spawn_mode: DrunkSpawnMode,
    pub drunken_lifetime: i32,
    pub floor_percent: i32,
    pub brush_size: i32,
    pub symmetry: Symmetry,
}

/// Settings within their working ranges.
pub open spec fn settings_wf(s: DrunkardSettings) -> bool {
    &&& 1 <= s.drunken_lifetime <= 100000
    &&& 1 <= s.floor_percent <= 100
    &&& 1 <= s.brush_size <= 16
}

pub struct DrunkardsWalkBuilder {
    pub map: Grid,
    pub starting_position: Position,
    pub depth: i32,
    pub history: Vec<Grid>,
    pub noise_areas: Vec<(i32, Vec<usize>)>,
    pub settings: DrunkardSettings,
    pub show_snapshots: bool,
}

impl DrunkardsWalkBuilder {
    /// The builder's map is well-formed and large enough for digger walks,
    /// and its settings are within their working ranges.
    pub open spec fn wf(&self) -> bool {
        &&& self.map.inv()
        &&& self.map.width >= 8
        &&& self.map.height >= 8
        &&& settings_wf(self.settings)
    }

    /// A builder with explicit settings over the default-sized all-wall map.
    pub fn new(new_depth: i32, settings: DrunkardSettings) -> (r: DrunkardsWalkBuilder)
        requires
            settings_wf(settings),
        ensures
            r.wf(),
            r.map.width == MAP_WIDTH,
            r.map.height == MAP_HEIGHT,
            r.map.depth == new_depth,
            r.depth == new_depth,
            no_stairs(r.map),
            r.settings == settings,
    {
        DrunkardsWalkBuilder {
            map: Grid::new(MAP_WIDTH, MAP_HEIGHT, new_depth),
            starting_position: Position { x: 0, y: 0 },
            depth: new_depth,
            history: Vec::new(),
            noise_areas: Vec::new(),
            settings,
            show_snapshots: false,
        }
    }

    /// One digger from the start, half the map as floor target.
    pub fn open_area(new_depth: i32) -> (r: DrunkardsWalkBuilder)
        ensures
            r.wf(),
            no_stairs(r.map),
            r.depth == new_depth,
            r.map.width == MAP_WIDTH,
            r.map.height == MAP_HEIGHT,
            r.map.depth == new_depth,
            r.settings.spawn_mode == DrunkSpawnMode::StartingPoint,
            r.settings.drunken_lifetime == 400,
            r.settings.floor_percent == 50,
            r.settings.brush_size == 1,
            r.settings.symmetry == Symmetry::NoSymmetry,
    {
        DrunkardsWalkBuilder::new(new_depth, DrunkardSettings {
            spawn_mode: DrunkSpawnMode::StartingPoint,
            drunken_lifetime: 400,
            floor_percent: 50,
            brush_size: 1,
            symmetry: Symmetry::NoSymmetry,
        })
    }

    /// Randomly spawned long-lived diggers, half the map as floor target.
    pub fn open_halls(new_depth: i32) -> (r: DrunkardsWalkBuilder)
        ensures
            r.wf(),
            no_stairs(r.map),
            r.depth == new_depth,
            r.map.width == MAP_WIDTH,
            r.map.height == MAP_HEIGHT,
            r.map.depth == new_depth,
            r.settings.spawn_mode == DrunkSpawnMode::Random,
            r.settings.drunken_lifetime == 400,
            r.settings.floor_percent == 50,
            r.settings.brush_size == 1,
            r.settings.symmetry == Symmetry::NoSymmetry,
    {
        DrunkardsWalkBuilder::new(new_depth, DrunkardSettings {
            spawn_mode: DrunkSpawnMode::Random,
            drunken_lifetime: 400,
            floor_percent: 50,
            brush_size: 1,
            symmetry: Symmetry::NoSymmetry,
        })
    }

    /// Short-lived diggers and a lower floor target: winding passages.
    pub fn winding_passages(new_depth: i32) -> (r: DrunkardsWalkBuilder)
        ensures
            r.wf(),
            no_stairs(r.map),
            r.depth == new_depth,
            r.map.width == MAP_WIDTH,
            r.map.height == MAP_HEIGHT,
            r.map.depth == new_depth,
            r.settings.spawn_mode == DrunkSpawnMode::Random,
            r.settings.drunken_lifetime == 100,
            r.settings.floor_percent == 40,
            r.settings.brush_size == 1,
            r.settings.symmetry == Symmetry::NoSymmetry,
    {
        DrunkardsWalkBuilder::new(new_depth, DrunkardSettings {
            spawn_mode: DrunkSpawnMode::Random,
            drunken_lifetime: 100,
            floor_percent: 40,
            brush_size: 1,
            symmetry: Symmetry::NoSymmetry,
        })
    }

    /// Short-lived diggers with a wide brush: big passages.
    pub fn big_passages(new_depth: i32) -> (r: DrunkardsWalkBuilder)
        ensures
            r.wf(),
            no_stairs(r.map),
            r.depth == new_depth,
            r.map.width == MAP_WIDTH,
            r.map.height == MAP_HEIGHT,
            r.map.depth == new_depth,
            r.settings.spawn_mode == DrunkSpawnMode::Random,
            r.settings.drunken_lifetime == 100,
            r.settings.floor_percent == 40,
            r.settings.brush_size == 2,
            r.settings.symmetry == Symmetry::NoSymmetry,
    {
        DrunkardsWalkBuilder::new(new_depth, DrunkardSettings {
            spawn_mode: DrunkSpawnMode::Random,
            drunken_lifetime: 100,
            floor_percent: 40,
            brush_size: 2,
            symmetry: Symmetry::NoSymmetry,
        })
    }

    /// Wide brush mirrored about both axes: fearful symmetry.
    pub fn fearful_symmetry(new_depth: i32) -> (r: DrunkardsWalkBuilder)
        ensures
            r.wf(),
            no_stairs(r.map),
            r.depth == new_depth,
            r.map.width == MAP_WIDTH,
            r.map.height == MAP_HEIGHT,
            r.map.depth == new_depth,
            r.settings.spawn_mode == DrunkSpawnMode::Random,
            r.settings.drunken_lifetime == 100,
            r.settings.floor_percent == 40,
            r.settings.brush_size == 2,
            r.settings.symmetry == Symmetry::Both,
    {
        DrunkardsWalkBuilder::new(new_depth, DrunkardSettings {
            spawn_mode: DrunkSpawnMode::Random,
            drunken_lifetime: 100,
            floor_percent: 40,
            brush_size: 2,
            symmetry: Symmetry::Both,
        })
    }

    /// Capture a visualization frame if the visualizer is enabled.
    pub fn take_snapshot(&mut self)
        requires
            old(self).wf(),
        ensures
            final(self).wf(),
            final(self).map == old(self).map,
            final(self).starting_position == old(self).starting_position,
            final(self).depth == old(self).depth,
            final(self).settings == old(self).settings,
            final(self).show_snapshots == old(self).show_snapshots,
    {
        match build_snapshot(&self.map, self.show_snapshots) {
            Option::Some(t) => {
                self.history.push(t);
            },
            Option::None => {},
        }
    }

    /// Reset every digger marker back to floor.
    fn clear_markers(&mut self)
        requires
            old(self).wf(),
        ensures
            final(self).wf(),
            final(self).map.width == old(self).map.width,
            final(self).map.height == old(self).map.height,
            final(self).map.depth == old(self).map.depth,
            final(self).depth == old(self).depth,
            final(self).settings == old(self).settings,
            final(self).starting_position == old(self).starting_position,
            final(self).show_snapshots == old(self).show_snapshots,
            no_stairs(final(self).map),
            forall|i: int| 0 <= i < final(self).map.tiles@.len()
                ==> #[trigger] final(self).map.tiles@[i] == (
                    if old(self).map.tiles@[i] == TileType::StairsDown {
                        TileType::Floor
                    } else {
                        old(self).map.tiles@[i]
                    }),
    {
        let n = self.map.tiles.len();
        let mut i: usize = 0;
        while i < n
            invariant
                self.wf(),
                self.map.width == old(self).map.width,
                self.map.height == old(self).map.height,
                self.map.depth == old(self).map.depth,
                self.depth == old(self).depth,
                self.settings == old(self).settings,
                self.starting_position == old(self).starting_position,
                self.show_snapshots == old(self).show_snapshots,
                n == self.map.tiles@.len(),
                i <= n,
                forall|k: int| 0 <= k < i
                    ==> #[trigger] self.map.tiles@[k] == (
                        if old(self).map.tiles@[k] == TileType::StairsDown {
                            TileType::Floor
                        } else {
                            old(self).map.tiles@[k]
                        }),
                forall|k: int| i <= k < n
                    ==> #[trigger] self.map.tiles@[k] == old(self).map.tiles@[k],
            decreases n - i,
        {
            let is_marker = match self.map.tiles[i] {
                TileType::StairsDown => true,
                _ => false,
            };
            if is_marker {
                self.map.tiles.set(i, TileType::Floor);
            }
            i = i + 1;
        }
    }

    /// Build the map: walk diggers until the floor share reaches the target,
    /// then repair connectivity and stamp the exit. Afterwards every walkable
    /// tile is reachable from the starting position and exactly one
    /// StairsDown tile exists.
    pub fn build(&mut self, rng: &mut RandomStream)
        requires
            old(self).wf(),
            no_stairs(old(self).map),
        ensures
            final(self).wf(),
            final(self).map.width == old(self).map.width,
            final(self).map.height == old(self).map.height,
            final(self).map.depth == old(self).map.depth,
            final(self).depth == old(self).depth,
            fully_connected(
                final(self).map,
                final(self).starting_position.x as int,
                final(self).starting_position.y as int,
            ),
            single_stairs(final(self).map),
            // the walk always starts digging at the map center
            final(self).starting_position.x == old(self).map.width / 2,
            final(self).starting_position.y == old(self).map.height / 2,
            final(self).map.in_bounds(
                final(self).starting_position.x as int,
                final(self).starting_position.y as int,
            ),
            walkable(final(self).map.tiles@[final(self).map.idx(
                final(self).starting_position.x as int,
                final(self).starting_position.y as int,
            )]),
            regions_wf(final(self).noise_areas@, final(self).map),
    {
        let start_x = self.map.width / 2;
        let start_y = self.map.height / 2;
        self.starting_position = Position { x: start_x, y: start_y };
        self.map.set_floor(start_x, start_y);
        proof {
            self.map.lemma_idx_bounds(start_x as int, start_y as int);
        }

        proof {
            assert((self.map.width as int) * (self.map.height as int) <= 512 * 512)
                by (nonlinear_arith)
                requires
                    0 < self.map.width as int <= 512,
                    0 < self.map.height as int <= 512,
            ;
        }
        let total_tiles = self.map.width * self.map.height;
        proof {
            assert(self.settings.floor_percent * (total_tiles as int) <= 100 * 262144)
                by (nonlinear_arith)
                requires
                    0 < self.settings.floor_percent <= 100,
                    0 <= total_tiles as int <= 262144,
            ;
        }
        let desired_floor_tiles = ((self.settings.floor_percent * total_tiles) / 100) as usize;
        let mut floor_tile_count = self.map.count_floor();
        let mut first_digger = true;
        let mut diggers_left: i32 = 1000000;

        while floor_tile_count < desired_floor_tiles && diggers_left > 0
            invariant
                self.wf(),
                self.map.width == old(self).map.width,
                self.map.height == old(self).map.height,
                self.map.depth == old(self).map.depth,
                self.depth == old(self).depth,
                self.settings == old(self).settings,
                self.show_snapshots == old(self).show_snapshots,
                self.starting_position.x == self.map.width / 2,
                self.starting_position.y == self.map.height / 2,
                no_stairs(self.map),
                self.map.tiles@[self.map.idx(
                    self.starting_position.x as int,
                    self.starting_position.y as int,
                )] == TileType::Floor,
            decreases diggers_left,
        {
            diggers_left = diggers_left - 1;
            let mut mutated_tiles = false;
            let mut drunk_x: i32;
            let mut drunk_y: i32;

            let spawn_at_start = match self.settings.spawn_mode {
                DrunkSpawnMode::StartingPoint => true,
                DrunkSpawnMode::Random => first_digger,
            };
            if spawn_at_start {
                drunk_x = self.starting_position.x;
                drunk_y = self.starting_position.y;
            } else {
                drunk_x = rng.roll_dice(1, self.map.width - 3) + 1;
                drunk_y = rng.roll_dice(1, self.map.height - 3) + 1;
            }

            let mut drunk_health = self.settings.drunken_lifetime;

            while drunk_health > 0
                invariant
                    self.wf(),
                    self.map.width == old(self).map.width,
                    self.map.height == old(self).map.height,
                    self.map.depth == old(self).map.depth,
                    self.depth == old(self).depth,
                    self.settings == old(self).settings,
                    self.show_snapshots == old(self).show_snapshots,
                    self.starting_position.x == self.map.width / 2,
                    self.starting_position.y == self.map.height / 2,
                    2 <= drunk_x <= self.map.width - 2,
                    2 <= drunk_y <= self.map.height - 2,
                    self.map.tiles@[self.map.idx(
                        self.starting_position.x as int,
                        self.starting_position.y as int,
                    )] == TileType::Floor || self.map.tiles@[self.map.idx(
                        self.starting_position.x as int,
                        self.starting_position.y as int,
                    )] == TileType::StairsDown,
                decreases drunk_health,
            {
                let t = self.map.get_tile(drunk_x, drunk_y);
                if t == TileType::Wall {
                    mutated_tiles = true;
                }

                proof {
                    self.map.lemma_idx_bounds(
                        self.starting_position.x as int,
                        self.starting_position.y as int,
                    );
                    let si0 = self.map.idx(
                        self.starting_position.x as int,
                        self.starting_position.y as int,
                    );
                    assert(self.map.tiles@[si0] == TileType::Floor
                        || self.map.tiles@[si0] == TileType::StairsDown);
                }
                let ghost pre_paint = self.map;
                paint(
                    &mut self.map,
                    self.settings.symmetry,
                    self.settings.brush_size,
                    drunk_x,
                    drunk_y,
                );
                proof {
                    self.map.lemma_idx_bounds(
                        self.starting_position.x as int,
                        self.starting_position.y as int,
                    );
                    let si = self.map.idx(
                        self.starting_position.x as int,
                        self.starting_position.y as int,
                    );
                    assert(self.map.tiles@[si] == pre_paint.tiles@[si]
                        || self.map.tiles@[si] == TileType::Floor);
                }
                let ghost pre_set = self.map;
                self.map.set_tile(drunk_x, drunk_y, TileType::StairsDown);
                proof {
                    let sxx = self.starting_position.x as int;
                    let syy = self.starting_position.y as int;
                    self.map.lemma_idx_bounds(sxx, syy);
                    self.map.lemma_idx_bounds(drunk_x as int, drunk_y as int);
                    let si2 = self.map.idx(sxx, syy);
                    assert(si2 == pre_set.idx(sxx, syy) && si2 == pre_paint.idx(sxx, syy));
                    assert(pre_paint.tiles@[si2] == TileType::Floor
                        || pre_paint.tiles@[si2] == TileType::StairsDown);
                    assert(pre_set.tiles@[si2] == pre_paint.tiles@[si2]
                        || pre_set.tiles@[si2] == TileType::Floor);
                    assert(self.map.tiles@ == pre_set.tiles@.update(
                        pre_set.idx(drunk_x as int, drunk_y as int), TileType::StairsDown));
                    assert(self.map.tiles@[si2] == TileType::Floor
                        || self.map.tiles@[si2] == TileType::StairsDown);
                }

                let stagger_direction = rng.roll_dice(1, 4);
                if stagger_direction == 1 {
                    if drunk_x > 2 {
                        drunk_x = drunk_x - 1;
                    }
                } else if stagger_direction == 2 {
                    if drunk_x < self.map.width - 2 {
                        drunk_x = drunk_x + 1;
                    }
                } else if stagger_direction == 3 {
                    if drunk_y > 2 {
                        drunk_y = drunk_y - 1;
                    }
                } else {
                    if drunk_y < self.map.height - 2 {
                        drunk_y = drunk_y + 1;
                    }
                }

                drunk_health = drunk_health - 1;
            }

            if mutated_tiles {
                self.take_snapshot();
            }

            first_digger = false;
            self.clear_markers();
            proof {
                self.map.lemma_idx_bounds(
                    self.starting_position.x as int,
                    self.starting_position.y as int,
                );
            }

            floor_tile_count = self.map.count_floor();
        }

        let _exit = finalize_exit(&mut self.map, start_x, start_y);
        self.take_snapshot();

        self.noise_areas = generate_voronoi_spawn_regions(&self.map, rng);
    }

    /// A copy of the finished map.
    pub fn get_map(&self) -> (m: Grid)
        ensures
            m.width == self.map.width,
            m.height == self.map.height,
            m.depth == self.map.depth,
            m.tiles@ == self.map.tiles@,
    {
        self.map.clone()
    }

    /// The chosen starting position.
    pub fn get_starting_position(&self) -> (p: Position)
        ensures
            p == self.starting_position,
    {
        self.starting_position
    }
}

} // verus!
