//! The generator family behind one dispatch point: a closed sum over the
//! concrete builders, the random selector that picks one per depth (wrapping
//! it with the wave-function-collapse layer roughly one time in three), and
//! the primary entry point that turns a depth and a seed into a finished map
//! with a starting position.

use vstd::prelude::*;
use crate::grid::{Grid, Position, MAP_WIDTH, MAP_HEIGHT};
use crate::rng::{RandomStream, roll_of, dice_draw};
use crate::tile::walkable;
use crate::reach::{no_stairs, fully_connected, single_stairs};
use crate::simple_map::SimpleMapBuilder;
use crate::tile::TileType;
use crate::rooms::room_floor_indices;
use crate::rect::Rect;
use crate::drawing::Symmetry;
use crate::bsp_dungeon::BspDungeonBuilder;
use crate::bsp_interior::BspInteriorBuilder;
use crate::cellular_automata::CellularAutomataBuilder;
use crate::drunkard::{DrunkardsWalkBuilder, DrunkSpawnMode};
use crate::dla::{DLABuilder, DLAAlgorithm};
use crate::voronoi::{VoronoiBuilder, DistanceAlgorithm};
use crate::maze::MazeBuilder;
use crate::prefab_builder::PrefabBuilder;
use crate::waveform_collapse::WaveformCollapseBuilder;

verus! {

/// One generator of the family, ready to build a map.
pub enum MapBuilder {
    Simple(SimpleMapBuilder),
    BspDungeon(BspDungeonBuilder),
    BspInterior(BspInteriorBuilder),
    Cellular(CellularAutomataBuilder),
    Drunkard(DrunkardsWalkBuilder),
    Dla(DLABuilder),
    Voronoi(VoronoiBuilder),
    Maze(MazeBuilder),
    Prefab(PrefabBuilder),
    Wfc(WaveformCollapseBuilder, Box<MapBuilder>),
}

impl MapBuilder {
    /// The builder's working map.
    pub open spec fn map_of(&self) -> Grid {
        match self {
            MapBuilder::Simple(b) => b.map,
            MapBuilder::BspDungeon(b) => b.map,
            MapBuilder::BspInterior(b) => b.map,
            MapBuilder::Cellular(b) => b.map,
            MapBuilder::Drunkard(b) => b.map,
            MapBuilder::Dla(b) => b.map,
            MapBuilder::Voronoi(b) => b.map,
            MapBuilder::Maze(b) => b.map,
            MapBuilder::Prefab(b) => b.map,
            MapBuilder::Wfc(w, _) => w.map,
        }
    }

    /// The builder's chosen starting position.
    pub open spec fn start_of(&self) -> Position {
        match self {
            MapBuilder::Simple(b) => b.starting_position,
            MapBuilder::BspDungeon(b) => b.starting_position,
            MapBuilder::BspInterior(b) => b.starting_position,
            MapBuilder::Cellular(b) => b.starting_position,
            MapBuilder::Drunkard(b) => b.starting_position,
            MapBuilder::Dla(b) => b.starting_position,
            MapBuilder::Voronoi(b) => b.starting_position,
            MapBuilder::Maze(b) => b.starting_position,
            MapBuilder::Prefab(b) => b.starting_position,
            MapBuilder::Wfc(w, _) => w.starting_position,
        }
    }

    /// A freshly constructed builder, ready to build: its map is untouched
    /// wall of workable dimensions, and a layered builder's inner generator
    /// is itself ready over a map of the same dimensions.
    pub open spec fn ready(&self) -> bool
        decreases self,
    {
        match self {
            MapBuilder::Simple(b) => b.wf() && b.rooms@.len() == 0 && no_stairs(b.map),
            MapBuilder::BspDungeon(b) => b.wf() && b.rooms@.len() == 0 && no_stairs(b.map),
            MapBuilder::BspInterior(b) => b.wf() && b.rooms@.len() == 0 && no_stairs(b.map),
            MapBuilder::Cellular(b) => b.wf() && no_stairs(b.map),
            MapBuilder::Drunkard(b) => b.wf() && no_stairs(b.map),
            MapBuilder::Dla(b) => b.wf() && no_stairs(b.map),
            MapBuilder::Voronoi(b) => b.wf() && no_stairs(b.map),
            MapBuilder::Maze(b) => b.wf(),
            MapBuilder::Prefab(b) => b.wf(),
            MapBuilder::Wfc(w, inner) => w.wf() && inner.ready()
                && inner.map_of().width == w.map.width
                && inner.map_of().height == w.map.height,
        }
    }

    /// A finished builder: its map is well-formed and its starting position
    /// names a walkable in-bounds tile.
    pub open spec fn finished(&self) -> bool {
        &&& self.map_of().inv()
        &&& self.map_of().in_bounds(self.start_of().x as int, self.start_of().y as int)
        &&& walkable(self.map_of().tiles@[self.map_of().idx(
            self.start_of().x as int,
            self.start_of().y as int,
        )])
    }

    /// The generators that finish with the connectivity repair of the shared
    /// analyzer, so their whole map is guaranteed reachable from the start.
    /// The room builders that connect by construction and the prefab stamp
    /// are the exceptions.
    pub open spec fn repair_based(&self) -> bool {
        match self {
            MapBuilder::Simple(_) => false,
            MapBuilder::BspInterior(_) => false,
            MapBuilder::Prefab(_) => false,
            _ => true,
        }
    }

    /// The generators guaranteed to finish with exactly one StairsDown tile:
    /// all but the prefab stamp, whose template decides its own exits.
    pub open spec fn single_exit_known(&self) -> bool {
        !(self is Prefab)
    }

    /// The visualization frames the builder recorded while it worked.
    pub open spec fn history_of(&self) -> Seq<Grid> {
        match self {
            MapBuilder::Simple(b) => b.history@,
            MapBuilder::BspDungeon(b) => b.history@,
            MapBuilder::BspInterior(b) => b.history@,
            MapBuilder::Cellular(b) => b.history@,
            MapBuilder::Drunkard(b) => b.history@,
            MapBuilder::Dla(b) => b.history@,
            MapBuilder::Voronoi(b) => b.history@,
            MapBuilder::Maze(b) => b.history@,
            MapBuilder::Prefab(b) => b.history@,
            MapBuilder::Wfc(w, _) => w.history@,
        }
    }

    /// Run the generator to completion: afterwards the map is finished and
    /// keeps its dimensions, the start stands on a walkable tile, every
    /// generator but the prefab stamp leaves exactly one StairsDown tile,
    /// and the repair-based generators leave every walkable tile reachable
    /// from the start.
    pub fn build_map(self, rng: &mut RandomStream) -> (r: MapBuilder)
        requires
            self.ready(),
        ensures
            r.finished(),
            r.map_of().width == self.map_of().width,
            r.map_of().height == self.map_of().height,
            self.single_exit_known() ==> single_stairs(r.map_of()),
            self.repair_based() ==> fully_connected(
                r.map_of(),
                r.start_of().x as int,
                r.start_of().y as int,
            ),
        decreases self,
    {
        match self {
            MapBuilder::Simple(mut b) => {
                b.build(rng);
                MapBuilder::Simple(b)
            },
            MapBuilder::BspDungeon(mut b) => {
                b.build(rng);
                MapBuilder::BspDungeon(b)
            },
            MapBuilder::BspInterior(mut b) => {
                b.build(rng);
                MapBuilder::BspInterior(b)
            },
            MapBuilder::Cellular(mut b) => {
                b.build(rng);
                MapBuilder::Cellular(b)
            },
            MapBuilder::Drunkard(mut b) => {
                b.build(rng);
                MapBuilder::Drunkard(b)
            },
            MapBuilder::Dla(mut b) => {
                b.build(rng);
                MapBuilder::Dla(b)
            },
            MapBuilder::Voronoi(mut b) => {
                b.build(rng);
                MapBuilder::Voronoi(b)
            },
            MapBuilder::Maze(mut b) => {
                b.build(rng);
                MapBuilder::Maze(b)
            },
            MapBuilder::Prefab(mut b) => {
                b.build(rng);
                MapBuilder::Prefab(b)
            },
            MapBuilder::Wfc(mut w, inner) => {
                let built_inner = (*inner).build_map(rng);
                let derived = built_inner.get_map();
                w.build_from_derived(&derived, rng);
                MapBuilder::Wfc(w, Box::new(built_inner))
            },
        }
    }

    /// A copy of the finished map.
    pub fn get_map(&self) -> (m: Grid)
        ensures
            m.width == self.map_of().width,
            m.height == self.map_of().height,
            m.depth == self.map_of().depth,
            m.tiles@ == self.map_of().tiles@,
            self.map_of().inv() ==> m.inv(),
    {
        match self {
            MapBuilder::Simple(b) => b.map.clone(),
            MapBuilder::BspDungeon(b) => b.map.clone(),
            MapBuilder::BspInterior(b) => b.map.clone(),
            MapBuilder::Cellular(b) => b.map.clone(),
            MapBuilder::Drunkard(b) => b.map.clone(),
            MapBuilder::Dla(b) => b.map.clone(),
            MapBuilder::Voronoi(b) => b.map.clone(),
            MapBuilder::Maze(b) => b.map.clone(),
            MapBuilder::Prefab(b) => b.map.clone(),
            MapBuilder::Wfc(w, _) => w.map.clone(),
        }
    }

    /// The candidate spawn locations of the finished map, grouped by room or
    /// noise region: every listed index names a floor tile. Room builders
    /// skip their first room, which holds the player, and offer one list per
    /// remaining room, holding every interior floor tile of that room.
    pub fn spawn_candidates(&self) -> (r: Vec<Vec<usize>>)
        requires
            self.map_of().inv(),
        ensures
            forall|e: int, k: int| 0 <= e < r@.len() && 0 <= k < r@[e]@.len()
                ==> ((#[trigger] r@[e]@[k]) as int) < self.map_of().tiles@.len()
                    && self.map_of().tiles@[r@[e]@[k] as int] == TileType::Floor,
            self is Simple ==> rooms_reflected(
                self->Simple_0.rooms@, self->Simple_0.map, r@),
            self is BspDungeon ==> rooms_reflected(
                self->BspDungeon_0.rooms@, self->BspDungeon_0.map, r@),
            self is BspInterior ==> rooms_reflected(
                self->BspInterior_0.rooms@, self->BspInterior_0.map, r@),
    {
        match self {
            MapBuilder::Simple(b) => rooms_to_candidates(&b.map, &b.rooms),
            MapBuilder::BspDungeon(b) => rooms_to_candidates(&b.map, &b.rooms),
            MapBuilder::BspInterior(b) => rooms_to_candidates(&b.map, &b.rooms),
            MapBuilder::Cellular(b) => regions_to_candidates(&b.map, &b.noise_areas),
            MapBuilder::Drunkard(b) => regions_to_candidates(&b.map, &b.noise_areas),
            MapBuilder::Dla(b) => regions_to_candidates(&b.map, &b.noise_areas),
            MapBuilder::Voronoi(b) => regions_to_candidates(&b.map, &b.noise_areas),
            MapBuilder::Maze(b) => regions_to_candidates(&b.map, &b.noise_areas),
            MapBuilder::Prefab(b) => prefab_candidates(&b.map, &b.spawns),
            MapBuilder::Wfc(w, _) => regions_to_candidates(&w.map, &w.noise_areas),
        }
    }

    /// The chosen starting position.
    pub fn get_starting_position(&self) -> (p: Position)
        ensures
            p == self.start_of(),
    {
        match self {
            MapBuilder::Simple(b) => b.starting_position,
            MapBuilder::BspDungeon(b) => b.starting_position,
            MapBuilder::BspInterior(b) => b.starting_position,
            MapBuilder::Cellular(b) => b.starting_position,
            MapBuilder::Drunkard(b) => b.starting_position,
            MapBuilder::Dla(b) => b.starting_position,
            MapBuilder::Voronoi(b) => b.starting_position,
            MapBuilder::Maze(b) => b.starting_position,
            MapBuilder::Prefab(b) => b.starting_position,
            MapBuilder::Wfc(w, _) => w.starting_position,
        }
    }

    /// A copy of the visualization frames recorded during the build; empty
    /// unless the builder's visualizer was enabled.
    pub fn get_snapshot_history(&self) -> (h: Vec<Grid>)
        ensures
            h@.len() == self.history_of().len(),
            forall|k: int| 0 <= k < h@.len()
                ==> (#[trigger] h@[k]).tiles@ == self.history_of()[k].tiles@
                    && h@[k].width == self.history_of()[k].width
                    && h@[k].height == self.history_of()[k].height
                    && h@[k].depth == self.history_of()[k].depth,
    {
        let src: &Vec<Grid> = match self {
            MapBuilder::Simple(b) => &b.history,
            MapBuilder::BspDungeon(b) => &b.history,
            MapBuilder::BspInterior(b) => &b.history,
            MapBuilder::Cellular(b) => &b.history,
            MapBuilder::Drunkard(b) => &b.history,
            MapBuilder::Dla(b) => &b.history,
            MapBuilder::Voronoi(b) => &b.history,
            MapBuilder::Maze(b) => &b.history,
            MapBuilder::Prefab(b) => &b.history,
            MapBuilder::Wfc(w, _) => &w.history,
        };
        let mut h: Vec<Grid> = Vec::new();
        let n = src.len();
        let mut i: usize = 0;
        while i < n
            invariant
                n == src@.len(),
                src@ == self.history_of(),
                i <= n,
                h@.len() == i,
                forall|k: int| 0 <= k < i
                    ==> (#[trigger] h@[k]).tiles@ == src@[k].tiles@
                        && h@[k].width == src@[k].width
                        && h@[k].height == src@[k].height
                        && h@[k].depth == src@[k].depth,
            decreases n - i,
        {
            h.push(src[i].clone());
            i = i + 1;
        }
        h
    }
}

/// The candidate lists mirror the stored rooms: when every room past the
/// first is well-placed, there is one list per such room, and it holds every
/// interior floor tile of its room.
pub open spec fn rooms_reflected(rooms: Seq<Rect>, m: Grid, r: Seq<Vec<usize>>) -> bool {
    (forall|j: int| 1 <= j < rooms.len() ==> candidate_room(#[trigger] rooms[j], m))
        ==> r.len() == (if rooms.len() == 0 { 0int } else { rooms.len() - 1 })
            && (forall|e: int, a: int, b: int| 0 <= e < r.len()
                && rooms[e + 1].x1 < a <= rooms[e + 1].x2
                && rooms[e + 1].y1 < b <= rooms[e + 1].y2
                && m.tiles@[#[trigger] m.idx(a, b)] == TileType::Floor
                ==> (#[trigger] r[e])@.contains(m.idx(a, b) as usize))
}

/// A stored room the candidate pass accepts: placed inside the map border
/// with a carved interior of at least one tile each way.
pub open spec fn candidate_room(room: Rect, m: Grid) -> bool {
    &&& 0 <= room.x1 <= 100000
    &&& 0 <= room.y1 <= 100000
    &&& room.x1 + 2 <= room.x2
    &&& room.x2 < m.width - 1
    &&& room.y1 + 2 <= room.y2
    &&& room.y2 < m.height - 1
}

/// The floor tiles of each room but the first, as flat indices per room:
/// when every stored room past the first is well-placed, one list per such
/// room, each listing every interior floor tile of its room.
fn rooms_to_candidates(map: &Grid, rooms: &Vec<Rect>) -> (r: Vec<Vec<usize>>)
    requires
        map.inv(),
    ensures
        forall|e: int, k: int| 0 <= e < r@.len() && 0 <= k < r@[e]@.len()
            ==> ((#[trigger] r@[e]@[k]) as int) < map.tiles@.len()
                && map.tiles@[r@[e]@[k] as int] == TileType::Floor,
        (forall|j: int| 1 <= j < rooms@.len() ==> candidate_room(#[trigger] rooms@[j], *map))
            ==> r@.len() == (if rooms@.len() == 0 { 0int } else { rooms@.len() - 1 })
                && (forall|e: int, a: int, b: int| 0 <= e < r@.len()
                    && rooms@[e + 1].x1 < a <= rooms@[e + 1].x2
                    && rooms@[e + 1].y1 < b <= rooms@[e + 1].y2
                    && map.tiles@[#[trigger] map.idx(a, b)] == TileType::Floor
                    ==> (#[trigger] r@[e])@.contains(map.idx(a, b) as usize)),
{
    let mut r: Vec<Vec<usize>> = Vec::new();
    let n = rooms.len();
    let mut i: usize = 1;
    while i < n
        invariant
            map.inv(),
            n == rooms@.len(),
            i == 1 || (1 <= i && i <= n),
            forall|e: int, k: int| 0 <= e < r@.len() && 0 <= k < r@[e]@.len()
                ==> ((#[trigger] r@[e]@[k]) as int) < map.tiles@.len()
                    && map.tiles@[r@[e]@[k] as int] == TileType::Floor,
            (forall|j: int| 1 <= j < rooms@.len()
                ==> candidate_room(#[trigger] rooms@[j], *map))
                ==> r@.len() == i - 1
                    && (forall|e: int, a: int, b: int| 0 <= e < r@.len()
                        && rooms@[e + 1].x1 < a <= rooms@[e + 1].x2
                        && rooms@[e + 1].y1 < b <= rooms@[e + 1].y2
                        && map.tiles@[#[trigger] map.idx(a, b)] == TileType::Floor
                        ==> (#[trigger] r@[e])@.contains(map.idx(a, b) as usize)),
        decreases n - i,
    {
        let room = rooms[i];
        let in_grid = 0 <= room.x1 && room.x1 <= 100000 && 0 <= room.y1 && room.y1 <= 100000
            && room.x1 + 2 <= room.x2 && room.x2 < map.width - 1
            && room.y1 + 2 <= room.y2 && room.y2 < map.height - 1;
        if in_grid {
            let list = room_floor_indices(map, &room);
            r.push(list);
        }
        i = i + 1;
    }
    r
}

/// The noise regions as candidate lists, with every index rechecked against
/// the map so the guarantee holds of whatever region data is stored.
fn regions_to_candidates(map: &Grid, areas: &Vec<(i32, Vec<usize>)>) -> (r: Vec<Vec<usize>>)
    requires
        map.inv(),
    ensures
        forall|e: int, k: int| 0 <= e < r@.len() && 0 <= k < r@[e]@.len()
            ==> ((#[trigger] r@[e]@[k]) as int) < map.tiles@.len()
                && map.tiles@[r@[e]@[k] as int] == TileType::Floor,
{
    let mut r: Vec<Vec<usize>> = Vec::new();
    let n = areas.len();
    let mut e: usize = 0;
    while e < n
        invariant
            map.inv(),
            n == areas@.len(),
            e <= n,
            forall|e2: int, k: int| 0 <= e2 < r@.len() && 0 <= k < r@[e2]@.len()
                ==> ((#[trigger] r@[e2]@[k]) as int) < map.tiles@.len()
                    && map.tiles@[r@[e2]@[k] as int] == TileType::Floor,
        decreases n - e,
    {
        let src = &areas[e].1;
        let mut list: Vec<usize> = Vec::new();
        let m = src.len();
        let mut k: usize = 0;
        while k < m
            invariant
                map.inv(),
                m == src@.len(),
                k <= m,
                forall|k2: int| 0 <= k2 < list@.len()
                    ==> (#[trigger] list@[k2] as int) < map.tiles@.len()
                        && map.tiles@[list@[k2] as int] == TileType::Floor,
            decreases m - k,
        {
            let idx = src[k];
            if idx < map.tiles.len() {
                let is_floor = match map.tiles[idx] {
                    TileType::Floor => true,
                    _ => false,
                };
                if is_floor {
                    list.push(idx);
                }
            }
            k = k + 1;
        }
        r.push(list);
        e = e + 1;
    }
    r
}

/// Each prefab spawn hint as its own single-tile candidate list, rechecked
/// against the map.
fn prefab_candidates(map: &Grid, spawns: &Vec<(usize, String)>) -> (r: Vec<Vec<usize>>)
    requires
        map.inv(),
    ensures
        forall|e: int, k: int| 0 <= e < r@.len() && 0 <= k < r@[e]@.len()
            ==> ((#[trigger] r@[e]@[k]) as int) < map.tiles@.len()
                && map.tiles@[r@[e]@[k] as int] == TileType::Floor,
{
    let mut r: Vec<Vec<usize>> = Vec::new();
    let n = spawns.len();
    let mut e: usize = 0;
    while e < n
        invariant
            map.inv(),
            n == spawns@.len(),
            e <= n,
            forall|e2: int, k: int| 0 <= e2 < r@.len() && 0 <= k < r@[e2]@.len()
                ==> ((#[trigger] r@[e2]@[k]) as int) < map.tiles@.len()
                    && map.tiles@[r@[e2]@[k] as int] == TileType::Floor,
        decreases n - e,
    {
        let idx = spawns[e].0;
        if idx < map.tiles.len() {
            let is_floor = match map.tiles[idx] {
                TileType::Floor => true,
                _ => false,
            };
            if is_floor {
                let mut list: Vec<usize> = Vec::new();
                list.push(idx);
                r.push(list);
            }
        }
        e = e + 1;
    }
    r
}

/// The fixed deterministic generator used by tooling that wants
/// reproducibility without the random selector.
pub fn static_builder(new_depth: i32) -> (r: MapBuilder)
    ensures
        r.ready(),
{
    MapBuilder::Dla(DLABuilder::walk_inwards(new_depth))
}

/// The generator configuration the selector's first roll picks: the kind,
/// the preset's parameters, and the requested depth.
pub open spec fn matches_roll(b: MapBuilder, roll: int, depth: int) -> bool {
    if roll == 1 {
        b is BspDungeon && b->BspDungeon_0.depth == depth
    } else if roll == 2 {
        b is BspInterior && b->BspInterior_0.depth == depth
    } else if roll == 3 {
        b is Cellular && b->Cellular_0.depth == depth
    } else if 4 <= roll <= 8 {
        &&& b is Drunkard
        &&& b->Drunkard_0.depth == depth
        &&& ({
            let s = b->Drunkard_0.settings;
            if roll == 4 {
                s.spawn_mode == DrunkSpawnMode::StartingPoint && s.drunken_lifetime == 400
                    && s.floor_percent == 50 && s.brush_size == 1
                    && s.symmetry == Symmetry::NoSymmetry
            } else if roll == 5 {
                s.spawn_mode == DrunkSpawnMode::Random && s.drunken_lifetime == 400
                    && s.floor_percent == 50 && s.brush_size == 1
                    && s.symmetry == Symmetry::NoSymmetry
            } else if roll == 6 {
                s.spawn_mode == DrunkSpawnMode::Random && s.drunken_lifetime == 100
                    && s.floor_percent == 40 && s.brush_size == 1
                    && s.symmetry == Symmetry::NoSymmetry
            } else if roll == 7 {
                s.spawn_mode == DrunkSpawnMode::Random && s.drunken_lifetime == 100
                    && s.floor_percent == 40 && s.brush_size == 2
                    && s.symmetry == Symmetry::NoSymmetry
            } else {
                s.spawn_mode == DrunkSpawnMode::Random && s.drunken_lifetime == 100
                    && s.floor_percent == 40 && s.brush_size == 2
                    && s.symmetry == Symmetry::Both
            }
        })
    } else if roll == 9 {
        b is Maze && b->Maze_0.depth == depth
    } else if 10 <= roll <= 13 {
        &&& b is Dla
        &&& b->Dla_0.depth == depth
        &&& b->Dla_0.floor_percent == 25
        &&& (if roll == 10 {
            b->Dla_0.algorithm == DLAAlgorithm::WalkInwards
                && b->Dla_0.symmetry == Symmetry::NoSymmetry && b->Dla_0.brush_size == 1
        } else if roll == 11 {
            b->Dla_0.algorithm == DLAAlgorithm::WalkOutwards
                && b->Dla_0.symmetry == Symmetry::NoSymmetry && b->Dla_0.brush_size == 2
        } else if roll == 12 {
            b->Dla_0.algorithm == DLAAlgorithm::CentralAttractor
                && b->Dla_0.symmetry == Symmetry::NoSymmetry && b->Dla_0.brush_size == 2
        } else {
            b->Dla_0.algorithm == DLAAlgorithm::CentralAttractor
                && b->Dla_0.symmetry == Symmetry::Horizontal && b->Dla_0.brush_size == 2
        })
    } else if roll == 14 || roll == 15 {
        &&& b is Voronoi
        &&& b->Voronoi_0.depth == depth
        &&& b->Voronoi_0.number_of_seeds == 64
        &&& b->Voronoi_0.distance_algorithm == (if roll == 14 {
            DistanceAlgorithm::Pythagoras
        } else {
            DistanceAlgorithm::Manhattan
        })
    } else {
        b is Simple && b->Simple_0.depth == depth
    }
}

/// Pick a generator for the depth by a weighted roll, and wrap it with the
/// wave-function-collapse layer roughly one time in three. The first named
/// draw picks the kind; the second decides the wrap, on a roll of one.
#[verifier::rlimit(100)]
pub fn random_builder(new_depth: i32, rng: &mut RandomStream) -> (r: MapBuilder)
    ensures
        r.ready(),
        r.single_exit_known(),
        final(rng).seed() == old(rng).seed(),
        final(rng).history() == old(rng).history()
            .push(dice_draw(1, 16)).push(dice_draw(1, 3)),
        ({
            let first = roll_of(old(rng).seed(), old(rng).history(), 1, 16);
            let wrap = roll_of(
                old(rng).seed(),
                old(rng).history().push(dice_draw(1, 16)),
                1,
                3,
            );
            if wrap == 1 {
                r is Wfc && matches_roll(*r->Wfc_1, first, new_depth as int)
            } else {
                matches_roll(r, first, new_depth as int)
            }
        }),
{
    let builder = rng.roll_dice(1, 16);
    let result: MapBuilder = if builder == 1 {
        MapBuilder::BspDungeon(BspDungeonBuilder::new(new_depth))
    } else if builder == 2 {
        MapBuilder::BspInterior(BspInteriorBuilder::new(new_depth))
    } else if builder == 3 {
        MapBuilder::Cellular(CellularAutomataBuilder::new(new_depth))
    } else if builder == 4 {
        MapBuilder::Drunkard(DrunkardsWalkBuilder::open_area(new_depth))
    } else if builder == 5 {
        MapBuilder::Drunkard(DrunkardsWalkBuilder::open_halls(new_depth))
    } else if builder == 6 {
        MapBuilder::Drunkard(DrunkardsWalkBuilder::winding_passages(new_depth))
    } else if builder == 7 {
        MapBuilder::Drunkard(DrunkardsWalkBuilder::big_passages(new_depth))
    } else if builder == 8 {
        MapBuilder::Drunkard(DrunkardsWalkBuilder::fearful_symmetry(new_depth))
    } else if builder == 9 {
        MapBuilder::Maze(MazeBuilder::new(new_depth))
    } else if builder == 10 {
        MapBuilder::Dla(DLABuilder::walk_inwards(new_depth))
    } else if builder == 11 {
        MapBuilder::Dla(DLABuilder::walk_outwards(new_depth))
    } else if builder == 12 {
        MapBuilder::Dla(DLABuilder::central_attractor(new_depth))
    } else if builder == 13 {
        MapBuilder::Dla(DLABuilder::insectoid(new_depth))
    } else if builder == 14 {
        MapBuilder::Voronoi(VoronoiBuilder::pythagoras(new_depth))
    } else if builder == 15 {
        MapBuilder::Voronoi(VoronoiBuilder::manhattan(new_depth))
    } else {
        MapBuilder::Simple(SimpleMapBuilder::new(new_depth))
    };

    proof {
        assert(result.map_of().width == MAP_WIDTH && result.map_of().height == MAP_HEIGHT);
    }
    if rng.roll_dice(1, 3) == 1 {
        let wrapper = WaveformCollapseBuilder::new(MAP_WIDTH, MAP_HEIGHT, new_depth);
        let boxed = Box::new(result);
        proof {
            assert(wrapper.wf());
            assert(boxed == result);
            assert(boxed.ready());
            assert(boxed.map_of().width == wrapper.map.width);
            assert(boxed.map_of().height == wrapper.map.height);
        }
        let layered = MapBuilder::Wfc(wrapper, boxed);
        proof {
            assert(layered.ready());
        }
        layered
    } else {
        result
    }
}

/// The primary entry point when entering a new floor: build a map for the
/// depth from an explicit seed. The returned map is well-formed, holds
/// exactly one StairsDown tile, and the starting position stands on a
/// walkable in-bounds tile.
pub fn build_map(depth: i32, seed: u64) -> (r: (Grid, Position))
    ensures
        r.0.inv(),
        r.0.in_bounds(r.1.x as int, r.1.y as int),
        walkable(r.0.tiles@[r.0.idx(r.1.x as int, r.1.y as int)]),
        single_stairs(r.0),
{
    let mut rng = RandomStream::seeded(seed);
    let builder = random_builder(depth, &mut rng);
    let built = builder.build_map(&mut rng);
    let map = built.get_map();
    let start = built.get_starting_position();
    proof {
        // the copy keeps the tile vector, and the exit guarantee is a
        // statement about the tiles alone
        assert(map.tiles@ == built.map_of().tiles@);
        let e = choose|e: int| 0 <= e < built.map_of().tiles@.len()
            && built.map_of().tiles@[e] == TileType::StairsDown
            && (forall|i: int| 0 <= i < built.map_of().tiles@.len() && i != e
                ==> built.map_of().tiles@[i] != TileType::StairsDown);
        assert(0 <= e < map.tiles@.len() && map.tiles@[e] == TileType::StairsDown
            && (forall|i: int| 0 <= i < map.tiles@.len() && i != e
                ==> map.tiles@[i] != TileType::StairsDown));
    }
    (map, start)
}

} // verus!
