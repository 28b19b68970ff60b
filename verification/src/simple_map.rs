//! The rooms-and-corridors generator: repeatedly propose a random
//! non-overlapping rectangle, carve it, and connect it to the previous room
//! with an L-shaped tunnel. The last room's center becomes the exit and the
//! first room's center the starting position.

use vstd::prelude::*;
use crate::grid::{Grid, Position, MAP_WIDTH, MAP_HEIGHT, MAX_DIM};
use crate::rect::{Rect, rects_overlap};
use crate::rng::RandomStream;
use crate::rooms::{apply_room_to_map, apply_horizontal_tunnel, apply_vertical_tunnel};
use crate::rooms::{in_rect_interior, rect_in_grid, lemma_center_in_interior};
use crate::tile::{walkable, TileType};
use crate::reach::{no_stairs, single_stairs};
use crate::snapshot::build_snapshot;

verus! {

/// How many room placements are attempted per build.
pub const MAX_ROOMS: i32 = 30;

/// The accepted rooms of a build stay inside the map and never overlap, and
/// every room interior is walkable on the finished map.
pub open spec fn rooms_wf(rooms: Seq<Rect>, m: Grid) -> bool {
    &&& forall|k: int| 0 <= k < rooms.len()
        ==> rect_in_grid(#[trigger] rooms[k], m.width as int, m.height as int)
    &&& forall|j: int, k: int| 0 <= j < k < rooms.len()
        ==> !rects_overlap(rooms[j], rooms[k])
}

pub struct SimpleMapBuilder {
    pub map: Grid,
    pub starting_position: Position,
    pub depth: i32,
    pub rooms: Vec<Rect>,
    pub history: Vec<Grid>,
    pub show_snapshots: bool,
}

impl SimpleMapBuilder {
    /// The builder's map is well-formed and large enough to hold rooms.
    pub open spec fn wf(&self) -> bool {
        &&& self.map.inv()
        &&& self.map.width >= 10
        &&& self.map.height >= 10
    }

    /// A builder over the default-sized all-wall map for the given depth.
    pub fn new(new_depth: i32) -> (r: SimpleMapBuilder)
        ensures
            r.wf(),
            r.map.width == MAP_WIDTH,
            r.map.height == MAP_HEIGHT,
            r.map.depth == new_depth,
            r.depth == new_depth,
            no_stairs(r.map),
            r.rooms@.len() == 0,
    {
        SimpleMapBuilder::with_dimensions(MAP_WIDTH, MAP_HEIGHT, new_depth)
    }

    /// A builder over an all-wall map of the given dimensions.
    pub fn with_dimensions(width: i32, height: i32, new_depth: i32) -> (r: SimpleMapBuilder)
        requires
            10 <= width <= MAX_DIM,
            10 <= height <= MAX_DIM,
        ensures
            r.wf(),
            r.map.width == width,
            r.map.height == height,
            r.map.depth == new_depth,
            r.depth == new_depth,
            no_stairs(r.map),
            r.rooms@.len() == 0,
    {
        SimpleMapBuilder {
            map: Grid::new(width, height, new_depth),
            starting_position: Position { x: 0, y: 0 },
            depth: new_depth,
            rooms: Vec::new(),
            history: Vec::new(),
            show_snapshots: false,
        }
    }

    /// Capture a visualization frame if the visualizer is enabled.
    pub fn take_snapshot(&mut self)
        requires
            old(self).wf(),
        ensures
            final(self).wf(),
            final(self).map == old(self).map,
            final(self).rooms == old(self).rooms,
            final(self).starting_position == old(self).starting_position,
            final(self).depth == old(self).depth,
            final(self).show_snapshots == old(self).show_snapshots,
    {
        match build_snapshot(&self.map, self.show_snapshots) {
            Option::Some(t) => {
                self.history.push(t);
            },
            Option::None => {},
        }
    }

    /// Place rooms and corridors, stamp the exit, and pick the start: the
    /// rooms never overlap, the map holds exactly one StairsDown, the start
    /// is the first room's center and stands on a walkable tile, and every
    /// room interior is walkable.
    pub fn build(&mut self, rng: &mut RandomStream)
        requires
            old(self).wf(),
            old(self).rooms@.len() == 0,
            no_stairs(old(self).map),
        ensures
            final(self).wf(),
            final(self).map.width == old(self).map.width,
            final(self).map.height == old(self).map.height,
            final(self).map.depth == old(self).map.depth,
            final(self).depth == old(self).depth,
            rooms_wf(final(self).rooms@, final(self).map),
            final(self).rooms@.len() >= 1,
            single_stairs(final(self).map),
            // the one StairsDown tile sits at the last room's center
            ({
                let lr = final(self).rooms@[final(self).rooms@.len() - 1];
                final(self).map.tiles@[final(self).map.idx(
                    (lr.x1 + lr.x2) / 2,
                    (lr.y1 + lr.y2) / 2,
                )] == TileType::StairsDown
            }),
            final(self).starting_position.x
                == (final(self).rooms@[0].x1 + final(self).rooms@[0].x2) / 2,
            final(self).starting_position.y
                == (final(self).rooms@[0].y1 + final(self).rooms@[0].y2) / 2,
            final(self).map.in_bounds(
                final(self).starting_position.x as int,
                final(self).starting_position.y as int,
            ),
            walkable(final(self).map.tiles@[final(self).map.idx(
                final(self).starting_position.x as int,
                final(self).starting_position.y as int,
            )]),
            forall|k: int, x: int, y: int| 0 <= k < final(self).rooms@.len()
                && in_rect_interior(#[trigger] final(self).rooms@[k], x, y)
                ==> walkable(#[trigger] final(self).map.tiles@[final(self).map.idx(x, y)]),
    {
        let mut i: i32 = 0;
        while i < MAX_ROOMS
            invariant
                self.wf(),
                self.map.width == old(self).map.width,
                self.map.height == old(self).map.height,
                self.map.depth == old(self).map.depth,
                self.depth == old(self).depth,
                self.show_snapshots == old(self).show_snapshots,
                0 <= i <= MAX_ROOMS,
                rooms_wf(self.rooms@, self.map),
                i >= 1 ==> self.rooms@.len() >= 1,
                no_stairs(self.map),
                forall|k: int, x: int, y: int| 0 <= k < self.rooms@.len()
                    && in_rect_interior(#[trigger] self.rooms@[k], x, y)
                    ==> #[trigger] self.map.tiles@[self.map.idx(x, y)] == TileType::Floor,
            decreases MAX_ROOMS - i,
        {
            let mut w = rng.range(6, 10);
            if w > self.map.width - 4 {
                w = self.map.width - 4;
            }
            let mut h = rng.range(6, 10);
            if h > self.map.height - 4 {
                h = self.map.height - 4;
            }
            let x = rng.roll_dice(1, self.map.width - w - 1) - 1;
            let y = rng.roll_dice(1, self.map.height - h - 1) - 1;
            let new_room = Rect::new(x, y, w, h);

            let mut ok = true;
            let mut k: usize = 0;
            while k < self.rooms.len()
                invariant
                    k <= self.rooms@.len(),
                    self.rooms@.len() == 0 ==> ok,
                    ok ==> forall|j: int| 0 <= j < k
                        ==> !rects_overlap(new_room, #[trigger] self.rooms@[j]),
                decreases self.rooms@.len() - k,
            {
                if new_room.intersect(&self.rooms[k]) {
                    ok = false;
                }
                k = k + 1;
            }

            if ok {
                let ghost pre = *self;
                apply_room_to_map(&mut self.map, &new_room);
                self.take_snapshot();

                if self.rooms.len() > 0 {
                    let last = self.rooms.len() - 1;
                    let prev_room = self.rooms[last];
                    proof {
                        lemma_center_in_interior(
                            new_room, self.map.width as int, self.map.height as int);
                        lemma_center_in_interior(
                            prev_room, self.map.width as int, self.map.height as int);
                    }
                    let (nx, ny) = new_room.center();
                    let (px, py) = prev_room.center();

                    if rng.range(0, 2) == 1 {
                        apply_horizontal_tunnel(&mut self.map, px, nx, py);
                        apply_vertical_tunnel(&mut self.map, py, ny, nx);
                    } else {
                        apply_vertical_tunnel(&mut self.map, py, ny, px);
                        apply_horizontal_tunnel(&mut self.map, px, nx, ny);
                    }
                }

                self.rooms.push(new_room);
                self.take_snapshot();
                proof {
                    assert forall|k2: int, a: int, b: int| 0 <= k2 < self.rooms@.len()
                        && in_rect_interior(#[trigger] self.rooms@[k2], a, b)
                        implies #[trigger] self.map.tiles@[self.map.idx(a, b)]
                            == TileType::Floor by {
                        assert(rect_in_grid(self.rooms@[k2],
                            self.map.width as int, self.map.height as int));
                        self.map.lemma_idx_bounds(a, b);
                        if k2 < self.rooms@.len() - 1 {
                            assert(pre.map.tiles@[pre.map.idx(a, b)] == TileType::Floor);
                        }
                    }
                }
            }
            i = i + 1;
        }

        let last = self.rooms.len() - 1;
        let last_room = self.rooms[last];
        proof {
            lemma_center_in_interior(last_room, self.map.width as int, self.map.height as int);
        }
        let (stairs_x, stairs_y) = last_room.center();
        let stairs_index = self.map.xy_idx(stairs_x, stairs_y);
        let ghost pre_stamp = self.map;
        self.map.tiles.set(stairs_index, TileType::StairsDown);

        let first_room = self.rooms[0];
        proof {
            lemma_center_in_interior(first_room, self.map.width as int, self.map.height as int);
        }
        let (start_x, start_y) = first_room.center();
        self.starting_position = Position { x: start_x, y: start_y };

        proof {
            assert(single_stairs(self.map)) by {
                assert(self.map.tiles@[stairs_index as int] == TileType::StairsDown);
                assert(forall|j: int| 0 <= j < self.map.tiles@.len() && j != stairs_index
                    ==> self.map.tiles@[j] == pre_stamp.tiles@[j]);
            }
            assert forall|k2: int, a: int, b: int| 0 <= k2 < self.rooms@.len()
                && in_rect_interior(#[trigger] self.rooms@[k2], a, b)
                implies walkable(#[trigger] self.map.tiles@[self.map.idx(a, b)]) by {
                assert(rect_in_grid(self.rooms@[k2],
                    self.map.width as int, self.map.height as int));
                self.map.lemma_idx_bounds(a, b);
                assert(pre_stamp.tiles@[pre_stamp.idx(a, b)] == TileType::Floor);
            }
        }
    }

    /// A copy of the finished map.
    pub fn get_map(&self) -> (m: Grid)
        ensures
            m.width == self.map.width,
            m.height == self.map.height,
            m.depth == self.map.depth,
            m.tiles@ == self.map.tiles@,
    {
        self.map.clone()
    }

    /// The chosen starting position.
    pub fn get_starting_position(&self) -> (p: Position)
        ensures
            p == self.starting_position,
    {
        self.starting_position
    }
}

} // verus!
