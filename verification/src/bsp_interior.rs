//! The interior binary-space-partition generator: recursively bisect the map
//! into a full tiling of rectangular rooms, carve every leaf rectangle as
//! floor, and connect consecutive rooms with jittered corridors.

use vstd::prelude::*;
use crate::grid::{Grid, Position, MAP_WIDTH, MAP_HEIGHT, MAX_DIM};
use crate::rect::Rect;
use crate::rng::RandomStream;
use crate::tile::{walkable, TileType};
use crate::reach::{no_stairs, single_stairs};
use crate::snapshot::build_snapshot;

verus! {

/// Leaves smaller than this are not split further.
pub const MIN_ROOM_SIZE: i32 = 8;

/// The room occupies [x1, x2) x [y1, y2) when carved by this generator.
pub open spec fn in_rect_carved(r: Rect, x: int, y: int) -> bool {
    r.x1 <= x < r.x2 && r.y1 <= y < r.y2
}

/// A leaf rectangle stays inside the map's one-tile margin and is wide and
/// tall enough to have an interior point at its center.
pub open spec fn leaf_in_grid(r: Rect, w: int, h: int) -> bool {
    &&& 1 <= r.x1
    &&& r.x1 + 1 <= r.x2
    &&& r.x2 <= w - 1
    &&& 1 <= r.y1
    &&& r.y1 + 1 <= r.y2
    &&& r.y2 <= h - 1
}

/// Carve [x1, x2) x [y1, y2) of `room` to floor; nothing else changes kind.
fn carve_leaf(map: &mut Grid, room: &Rect)
    requires
        old(map).inv(),
        leaf_in_grid(*room, old(map).width as int, old(map).height as int),
    ensures
        final(map).inv(),
        final(map).width == old(map).width,
        final(map).height == old(map).height,
        final(map).depth == old(map).depth,
        final(map).tiles@.len() == old(map).tiles@.len(),
        forall|i: int| 0 <= i < final(map).tiles@.len()
            ==> final(map).tiles@[i] == old(map).tiles@[i]
                || #[trigger] final(map).tiles@[i] == TileType::Floor,
        forall|x: int, y: int| old(map).in_bounds(x, y) && in_rect_carved(*room, x, y)
            ==> #[trigger] final(map).tiles@[old(map).idx(x, y)] == TileType::Floor,
    {
    let y_end = room.y2;
    let x_end = room.x2;
    let mut y = room.y1;
    while y < y_end
        invariant
            old(map).inv(),
            map.inv(),
            map.width == old(map).width,
            map.height == old(map).height,
            map.depth == old(map).depth,
            map.tiles@.len() == old(map).tiles@.len(),
            leaf_in_grid(*room, map.width as int, map.height as int),
            y_end == room.y2,
            x_end == room.x2,
            room.y1 <= y <= room.y2,
            forall|i: int| 0 <= i < map.tiles@.len()
                ==> map.tiles@[i] == old(map).tiles@[i]
                    || #[trigger] map.tiles@[i] == TileType::Floor,
            forall|a: int, b: int| old(map).in_bounds(a, b) && in_rect_carved(*room, a, b)
                && b < y ==> #[trigger] map.tiles@[old(map).idx(a, b)] == TileType::Floor,
        decreases y_end - y,
    {
        let mut x = room.x1;
        while x < x_end
            invariant
                old(map).inv(),
                map.inv(),
                map.width == old(map).width,
                map.height == old(map).height,
                map.depth == old(map).depth,
                map.tiles@.len() == old(map).tiles@.len(),
                leaf_in_grid(*room, map.width as int, map.height as int),
                y_end == room.y2,
                x_end == room.x2,
                room.y1 <= y < room.y2,
                room.x1 <= x <= room.x2,
                forall|i: int| 0 <= i < map.tiles@.len()
                    ==> map.tiles@[i] == old(map).tiles@[i]
                        || #[trigger] map.tiles@[i] == TileType::Floor,
                forall|a: int, b: int| old(map).in_bounds(a, b) && in_rect_carved(*room, a, b)
                    && (b < y || (b == y && a < x))
                    ==> #[trigger] map.tiles@[old(map).idx(a, b)] == TileType::Floor,
            decreases x_end - x,
        {
            let i = map.xy_idx(x, y);
            proof {
                assert(i == old(map).idx(x as int, y as int));
            }
            map.tiles.set(i, TileType::Floor);
            proof {
                assert forall|a: int, b: int| old(map).in_bounds(a, b)
                    && in_rect_carved(*room, a, b)
                    && (b < y as int || (b == y as int && a < x as int + 1))
                    implies #[trigger] map.tiles@[old(map).idx(a, b)] == TileType::Floor by {
                    old(map).lemma_idx_bounds(a, b);
                    if a != x as int || b != y as int {
                        if old(map).idx(a, b) == old(map).idx(x as int, y as int) {
                            old(map).lemma_idx_injective(a, b, x as int, y as int);
                        }
                    }
                }
            }
            x = x + 1;
        }
        y = y + 1;
    }
}

/// The tiles the corridor walk carves: first along the row of (x1, y1)
/// toward x2, the start tile itself excluded, then along the column of x2
/// toward y2, both ends of each leg inclusive.
pub open spec fn on_corridor(x1: int, y1: int, x2: int, y2: int, a: int, b: int) -> bool {
    ||| (b == y1 && (if x1 <= x2 { x1 < a <= x2 } else { x2 <= a < x1 }))
    ||| (a == x2 && (if y1 <= y2 { y1 < b <= y2 } else { y2 <= b < y1 }))
}

/// The tiles carved once the walk stands at (cx, cy): the first leg up to
/// cx while still on the start row, the whole first leg and the second leg
/// up to cy afterwards.
spec fn corridor_upto(
    x1: int, y1: int, x2: int, y2: int, cx: int, cy: int, a: int, b: int,
) -> bool {
    ||| (b == y1
        && (if x1 <= x2 { x1 < a } else { a < x1 })
        && (if x1 <= x2 {
            a <= (if cy == y1 { cx } else { x2 })
        } else {
            a >= (if cy == y1 { cx } else { x2 })
        }))
    ||| (cy != y1 && a == x2 && (if y1 <= y2 { y1 < b <= cy } else { cy <= b < y1 }))
}

/// Carve a dog-leg corridor from (x1, y1) to (x2, y2), stepping one axis at
/// a time: exactly the L-path's tiles become floor.
pub fn draw_corridor(map: &mut Grid, x1: i32, y1: i32, x2: i32, y2: i32)
    requires
        old(map).inv(),
        0 <= x1 < old(map).width,
        0 <= x2 < old(map).width,
        0 <= y1 < old(map).height,
        0 <= y2 < old(map).height,
    ensures
        final(map).inv(),
        final(map).width == old(map).width,
        final(map).height == old(map).height,
        final(map).depth == old(map).depth,
        final(map).tiles@.len() == old(map).tiles@.len(),
        forall|i: int| 0 <= i < final(map).tiles@.len()
            ==> final(map).tiles@[i] == old(map).tiles@[i]
                || #[trigger] final(map).tiles@[i] == TileType::Floor,
        // exactly the L-path from (x1, y1) to (x2, y2) is carved
        forall|a: int, b: int| old(map).in_bounds(a, b)
            ==> final(map).tiles@[#[trigger] old(map).idx(a, b)] == (
                if on_corridor(x1 as int, y1 as int, x2 as int, y2 as int, a, b) {
                    TileType::Floor
                } else {
                    old(map).tiles@[old(map).idx(a, b)]
                }),
    {
    let mut x = x1;
    let mut y = y1;
    while x != x2 || y != y2
        invariant
            old(map).inv(),
            map.inv(),
            map.width == old(map).width,
            map.height == old(map).height,
            map.depth == old(map).depth,
            map.tiles@.len() == old(map).tiles@.len(),
            0 <= x < map.width,
            0 <= y < map.height,
            0 <= x1 < map.width,
            0 <= y1 < map.height,
            0 <= x2 < map.width,
            0 <= y2 < map.height,
            // on the start row heading for x2, or on the x2 column
            (y == y1 && (if x1 <= x2 { x1 <= x as int <= x2 } else { x2 <= x as int <= x1 }))
                || (x == x2 && y != y1
                    && (if y1 <= y2 { y1 <= y as int <= y2 } else { y2 <= y as int <= y1 })),
            forall|i: int| 0 <= i < map.tiles@.len()
                ==> map.tiles@[i] == old(map).tiles@[i]
                    || #[trigger] map.tiles@[i] == TileType::Floor,
            forall|a: int, b: int| old(map).in_bounds(a, b)
                ==> map.tiles@[#[trigger] old(map).idx(a, b)] == (
                    if corridor_upto(x1 as int, y1 as int, x2 as int, y2 as int,
                        x as int, y as int, a, b) {
                        TileType::Floor
                    } else {
                        old(map).tiles@[old(map).idx(a, b)]
                    }),
        decreases
            (if x < x2 { x2 - x } else { x - x2 }) + (if y < y2 { y2 - y } else { y - y2 }),
    {
        if x < x2 {
            x = x + 1;
        } else if x > x2 {
            x = x - 1;
        } else if y < y2 {
            y = y + 1;
        } else {
            y = y - 1;
        }
        let i = map.xy_idx(x, y);
        let ghost pre = *map;
        map.tiles.set(i, TileType::Floor);
        proof {
            old(map).lemma_idx_bounds(x as int, y as int);
            assert forall|a: int, b: int|
                old(map).in_bounds(a, b) && (a != x as int || b != y as int)
                implies map.tiles@[#[trigger] old(map).idx(a, b)]
                    == pre.tiles@[old(map).idx(a, b)] by {
                old(map).lemma_idx_bounds(a, b);
                if old(map).idx(a, b) == old(map).idx(x as int, y as int) {
                    old(map).lemma_idx_injective(a, b, x as int, y as int);
                }
            }
        }
    }
    proof {
        // at the walk's end the carved prefix is the whole L-path
        assert forall|a: int, b: int| old(map).in_bounds(a, b)
            implies (corridor_upto(x1 as int, y1 as int, x2 as int, y2 as int,
                x2 as int, y2 as int, a, b)
                == on_corridor(x1 as int, y1 as int, x2 as int, y2 as int, a, b)) by {}
    }
}

pub struct BspInteriorBuilder {
    pub map: Grid,
    pub starting_position: Position,
    pub depth: i32,
    pub rooms: Vec<Rect>,
    pub history: Vec<Grid>,
    pub rects: Vec<Rect>,
    pub show_snapshots: bool,
}

impl BspInteriorBuilder {
    /// The builder's map is well-formed and large enough to bisect.
    pub open spec fn wf(&self) -> bool {
        &&& self.map.inv()
        &&& self.map.width >= 8
        &&& self.map.height >= 8
    }

    /// A builder over the default-sized all-wall map for the given depth.
    pub fn new(new_depth: i32) -> (r: BspInteriorBuilder)
        ensures
            r.wf(),
            r.map.width == MAP_WIDTH,
            r.map.height == MAP_HEIGHT,
            r.map.depth == new_depth,
            r.depth == new_depth,
            no_stairs(r.map),
            r.rooms@.len() == 0,
    {
        BspInteriorBuilder {
            map: Grid::new(MAP_WIDTH, MAP_HEIGHT, new_depth),
            starting_position: Position { x: 0, y: 0 },
            depth: new_depth,
            rooms: Vec::new(),
            history: Vec::new(),
            rects: Vec::new(),
            show_snapshots: false,
        }
    }

    /// Capture a visualization frame if the visualizer is enabled.
    pub fn take_snapshot(&mut self)
        requires
            old(self).wf(),
        ensures
            final(self).wf(),
            final(self).map == old(self).map,
            final(self).rooms == old(self).rooms,
            final(self).rects == old(self).rects,
            final(self).starting_position == old(self).starting_position,
            final(self).depth == old(self).depth,
            final(self).show_snapshots == old(self).show_snapshots,
    {
        match build_snapshot(&self.map, self.show_snapshots) {
            Option::Some(t) => {
                self.history.push(t);
            },
            Option::None => {},
        }
    }

    /// Recursively bisect `rect` alternately by random choice, pushing the
    /// final leaves onto the worklist.
    pub fn add_subrects(&mut self, rect: Rect, rng: &mut RandomStream)
        requires
            old(self).wf(),
            leaf_in_grid(rect, old(self).map.width as int, old(self).map.height as int),
            rect.x2 - rect.x1 >= 4,
            rect.y2 - rect.y1 >= 4,
        ensures
            final(self).wf(),
            final(self).map == old(self).map,
            final(self).rooms == old(self).rooms,
            final(self).depth == old(self).depth,
            final(self).starting_position == old(self).starting_position,
            final(self).show_snapshots == old(self).show_snapshots,
            final(self).rects@.len() >= old(self).rects@.len() + 1,
            forall|k: int| 0 <= k < old(self).rects@.len()
                ==> #[trigger] final(self).rects@[k] == old(self).rects@[k],
            forall|k: int| old(self).rects@.len() <= k < final(self).rects@.len()
                ==> leaf_in_grid(#[trigger] final(self).rects@[k],
                    final(self).map.width as int, final(self).map.height as int),
        decreases (rect.x2 - rect.x1) + (rect.y2 - rect.y1),
    {
        let width = rect.x2 - rect.x1;
        let height = rect.y2 - rect.y1;
        let half_width = width / 2;
        let half_height = height / 2;

        let split = rng.roll_dice(1, 4);

        if split <= 2 {
            let h1 = Rect { x1: rect.x1, y1: rect.y1, x2: rect.x1 + half_width - 1,
                y2: rect.y2 };
            if half_width > MIN_ROOM_SIZE {
                self.add_subrects(h1, rng);
            } else {
                self.rects.push(h1);
            }

            let h2 = Rect { x1: rect.x1 + half_width, y1: rect.y1, x2: rect.x2, y2: rect.y2 };
            if half_width > MIN_ROOM_SIZE {
                self.add_subrects(h2, rng);
            } else {
                self.rects.push(h2);
            }
        } else {
            let v1 = Rect { x1: rect.x1, y1: rect.y1, x2: rect.x2,
                y2: rect.y1 + half_height - 1 };
            if half_height > MIN_ROOM_SIZE {
                self.add_subrects(v1, rng);
            } else {
                self.rects.push(v1);
            }

            let v2 = Rect { x1: rect.x1, y1: rect.y1 + half_height, x2: rect.x2, y2: rect.y2 };
            if half_height > MIN_ROOM_SIZE {
                self.add_subrects(v2, rng);
            } else {
                self.rects.push(v2);
            }
        }
    }

    /// Carve jittered corridors between consecutive rooms.
    pub fn add_corridors(&mut self, rng: &mut RandomStream)
        requires
            old(self).wf(),
            forall|k: int| 0 <= k < old(self).rooms@.len()
                ==> leaf_in_grid(#[trigger] old(self).rooms@[k],
                    old(self).map.width as int, old(self).map.height as int),
        ensures
            final(self).wf(),
            final(self).map.width == old(self).map.width,
            final(self).map.height == old(self).map.height,
            final(self).map.depth == old(self).map.depth,
            final(self).rooms == old(self).rooms,
            final(self).depth == old(self).depth,
            final(self).starting_position == old(self).starting_position,
            final(self).show_snapshots == old(self).show_snapshots,
            forall|i: int| 0 <= i < final(self).map.tiles@.len()
                ==> final(self).map.tiles@[i] == old(self).map.tiles@[i]
                    || #[trigger] final(self).map.tiles@[i] == TileType::Floor,
    {
        if self.rooms.len() == 0 {
            return ;
        }
        let count = self.rooms.len() - 1;
        let mut i: usize = 0;
        while i < count
            invariant
                old(self).wf(),
                self.wf(),
                self.map.width == old(self).map.width,
                self.map.height == old(self).map.height,
                self.map.depth == old(self).map.depth,
                self.rooms == old(self).rooms,
                self.depth == old(self).depth,
                self.starting_position == old(self).starting_position,
                self.show_snapshots == old(self).show_snapshots,
                count == self.rooms@.len() - 1,
                i <= count,
                forall|k: int| 0 <= k < self.rooms@.len()
                    ==> leaf_in_grid(#[trigger] self.rooms@[k],
                        self.map.width as int, self.map.height as int),
                forall|q: int| 0 <= q < self.map.tiles@.len()
                    ==> self.map.tiles@[q] == old(self).map.tiles@[q]
                        || #[trigger] self.map.tiles@[q] == TileType::Floor,
            decreases count - i,
        {
            let room = self.rooms[i];
            let next_room = self.rooms[i + 1];
            let start_x = room.x1 + (rng.roll_dice(1, room.x2 - room.x1) - 1);
            let start_y = room.y1 + (rng.roll_dice(1, room.y2 - room.y1) - 1);
            let end_x = next_room.x1 + (rng.roll_dice(1, next_room.x2 - next_room.x1) - 1);
            let end_y = next_room.y1 + (rng.roll_dice(1, next_room.y2 - next_room.y1) - 1);
            draw_corridor(&mut self.map, start_x, start_y, end_x, end_y);
            self.take_snapshot();
            i = i + 1;
        }
    }

    /// Stamp the exit at the last room's center.
    pub fn add_stairs(&mut self)
        requires
            old(self).wf(),
            old(self).rooms@.len() >= 1,
            forall|k: int| 0 <= k < old(self).rooms@.len()
                ==> leaf_in_grid(#[trigger] old(self).rooms@[k],
                    old(self).map.width as int, old(self).map.height as int),
            no_stairs(old(self).map),
        ensures
            final(self).wf(),
            final(self).map.width == old(self).map.width,
            final(self).map.height == old(self).map.height,
            final(self).map.depth == old(self).map.depth,
            final(self).rooms == old(self).rooms,
            final(self).depth == old(self).depth,
            final(self).starting_position == old(self).starting_position,
            single_stairs(final(self).map),
            ({
                let lr = final(self).rooms@[final(self).rooms@.len() - 1];
                final(self).map.tiles@[final(self).map.idx(
                    (lr.x1 + lr.x2) / 2,
                    (lr.y1 + lr.y2) / 2,
                )] == TileType::StairsDown
            }),
            forall|i: int| 0 <= i < final(self).map.tiles@.len()
                ==> final(self).map.tiles@[i] == old(self).map.tiles@[i]
                    || #[trigger] final(self).map.tiles@[i] == TileType::StairsDown,
    {
        let last = self.rooms.len() - 1;
        let room = self.rooms[last];
        let (x, y) = room.center();
        let stairs_position = self.map.xy_idx(x, y);
        let ghost pre = self.map;
        self.map.tiles.set(stairs_position, TileType::StairsDown);
        proof {
            assert(single_stairs(self.map)) by {
                assert(self.map.tiles@[stairs_position as int] == TileType::StairsDown);
                assert(forall|j: int| 0 <= j < self.map.tiles@.len() && j != stairs_position
                    ==> self.map.tiles@[j] == pre.tiles@[j]);
            }
        }
    }

    /// Build the map: bisect, carve every leaf, connect consecutive rooms,
    /// stamp the exit at the last room's center, and start at the first
    /// room's center. The map holds exactly one StairsDown tile and the
    /// start tile is walkable.
    pub fn build(&mut self, rng: &mut RandomStream)
        requires
            old(self).wf(),
            old(self).rooms@.len() == 0,
            no_stairs(old(self).map),
        ensures
            final(self).wf(),
            final(self).map.width == old(self).map.width,
            final(self).map.height == old(self).map.height,
            final(self).map.depth == old(self).map.depth,
            final(self).depth == old(self).depth,
            final(self).rooms@.len() >= 1,
            single_stairs(final(self).map),
            // the one StairsDown tile sits at the last room's center
            ({
                let lr = final(self).rooms@[final(self).rooms@.len() - 1];
                final(self).map.tiles@[final(self).map.idx(
                    (lr.x1 + lr.x2) / 2,
                    (lr.y1 + lr.y2) / 2,
                )] == TileType::StairsDown
            }),
            final(self).map.in_bounds(
                final(self).starting_position.x as int,
                final(self).starting_position.y as int,
            ),
            walkable(final(self).map.tiles@[final(self).map.idx(
                final(self).starting_position.x as int,
                final(self).starting_position.y as int,
            )]),
    {
        let w = self.map.width;
        let h = self.map.height;
        let first = Rect { x1: 1, y1: 1, x2: w - 1, y2: h - 1 };
        self.rects = Vec::new();
        self.add_subrects(first, rng);

        // carve every leaf as a room
        let count = self.rects.len();
        let mut k: usize = 0;
        while k < count
            invariant
                old(self).wf(),
                self.wf(),
                self.map.width == old(self).map.width,
                self.map.height == old(self).map.height,
                self.map.depth == old(self).map.depth,
                self.depth == old(self).depth,
                self.show_snapshots == old(self).show_snapshots,
                count == self.rects@.len(),
                k <= count,
                count >= 1,
                self.rooms@.len() == k,
                no_stairs(self.map),
                forall|q: int| 0 <= q < self.rects@.len()
                    ==> leaf_in_grid(#[trigger] self.rects@[q],
                        self.map.width as int, self.map.height as int),
                forall|q: int| 0 <= q < k ==> #[trigger] self.rooms@[q] == self.rects@[q],
                forall|q: int, a: int, b: int| 0 <= q < k
                    && in_rect_carved(#[trigger] self.rooms@[q], a, b)
                    && self.map.in_bounds(a, b)
                    ==> #[trigger] self.map.tiles@[self.map.idx(a, b)] == TileType::Floor,
            decreases count - k,
        {
            let room = self.rects[k];
            let ghost pre = *self;
            carve_leaf(&mut self.map, &room);
            self.rooms.push(room);
            self.take_snapshot();
            proof {
                assert forall|q: int, a: int, b: int| 0 <= q < k + 1
                    && in_rect_carved(#[trigger] self.rooms@[q], a, b)
                    && self.map.in_bounds(a, b)
                    implies #[trigger] self.map.tiles@[self.map.idx(a, b)]
                        == TileType::Floor by {
                    self.map.lemma_idx_bounds(a, b);
                    if q < k as int {
                        assert(pre.map.tiles@[pre.map.idx(a, b)] == TileType::Floor);
                    }
                }
            }
            k = k + 1;
        }

        let ghost carved = *self;
        self.add_corridors(rng);
        proof {
            assert forall|q: int, a: int, b: int| 0 <= q < self.rooms@.len()
                && in_rect_carved(#[trigger] self.rooms@[q], a, b)
                && self.map.in_bounds(a, b)
                implies #[trigger] self.map.tiles@[self.map.idx(a, b)]
                    == TileType::Floor by {
                self.map.lemma_idx_bounds(a, b);
                assert(carved.map.tiles@[carved.map.idx(a, b)] == TileType::Floor);
            }
        }

        let ghost tunneled = *self;
        self.add_stairs();

        let first_room = self.rooms[0];
        let (start_x, start_y) = first_room.center();
        self.starting_position = Position { x: start_x, y: start_y };
        proof {
            self.map.lemma_idx_bounds(start_x as int, start_y as int);
            assert(in_rect_carved(first_room, start_x as int, start_y as int));
            assert(tunneled.map.tiles@[tunneled.map.idx(start_x as int, start_y as int)]
                == TileType::Floor);
        }
    }

    /// A copy of the finished map.
    pub fn get_map(&self) -> (m: Grid)
        ensures
            m.width == self.map.width,
            m.height == self.map.height,
            m.depth == self.map.depth,
            m.tiles@ == self.map.tiles@,
    {
        self.map.clone()
    }

    /// The chosen starting position.
    pub fn get_starting_position(&self) -> (p: Position)
        ensures
            p == self.starting_position,
    {
        self.starting_position
    }
}

} // verus!
