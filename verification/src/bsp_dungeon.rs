//! The binary-space-partition dungeon generator: keep a worklist of
//! splittable regions, repeatedly propose a random sub-rectangle of a random
//! region and accept it when a two-tile buffer around it is untouched wall,
//! then order the rooms by x-coordinate and connect consecutive rooms with
//! jittered corridors. Accepted rooms never overlap.

use vstd::prelude::*;
use crate::grid::{Grid, Position, MAP_WIDTH, MAP_HEIGHT, MAX_DIM};
use crate::rect::{Rect, rects_overlap};
use crate::rng::RandomStream;
use crate::rooms::{apply_room_to_map, in_rect_interior, rect_in_grid, lemma_center_in_interior};
use crate::rooms::{max_i};
use crate::bsp_interior::draw_corridor;
use crate::tile::{walkable, TileType};
use crate::reach::{no_stairs, single_stairs, fully_connected};
use crate::connectivity::finalize_exit;
use crate::simple_map::rooms_wf;
use crate::snapshot::build_snapshot;

verus! {

/// The rooms accepted so far all sit inside the map, never overlap, and
/// their interiors are carved floor.
pub open spec fn bsp_rooms_ok(rooms: Seq<Rect>, m: Grid) -> bool {
    &&& rooms_wf(rooms, m)
    &&& forall|k: int, x: int, y: int| 0 <= k < rooms.len()
        && in_rect_interior(#[trigger] rooms[k], x, y)
        ==> #[trigger] m.tiles@[m.idx(x, y)] == TileType::Floor
}

pub struct BspDungeonBuilder {
    pub map: Grid,
    pub starting_position: Position,
    pub depth: i32,
    pub rooms: Vec<Rect>,
    pub history: Vec<Grid>,
    pub rects: Vec<Rect>,
    pub show_snapshots: bool,
}

impl BspDungeonBuilder {
    /// The builder's map is well-formed and large enough for room placement.
    pub open spec fn wf(&self) -> bool {
        &&& self.map.inv()
        &&& self.map.width >= 16
        &&& self.map.height >= 16
    }

    /// A builder over the default-sized all-wall map for the given depth.
    pub fn new(new_depth: i32) -> (r: BspDungeonBuilder)
        ensures
            r.wf(),
            r.map.width == MAP_WIDTH,
            r.map.height == MAP_HEIGHT,
            r.map.depth == new_depth,
            r.depth == new_depth,
            no_stairs(r.map),
            r.rooms@.len() == 0,
    {
        BspDungeonBuilder {
            map: Grid::new(MAP_WIDTH, MAP_HEIGHT, new_depth),
            starting_position: Position { x: 0, y: 0 },
            depth: new_depth,
            rooms: Vec::new(),
            history: Vec::new(),
            rects: Vec::new(),
            show_snapshots: false,
        }
    }

    /// Capture a visualization frame if the visualizer is enabled.
    pub fn take_snapshot(&mut self)
        requires
            old(self).wf(),
        ensures
            final(self).wf(),
            final(self).map == old(self).map,
            final(self).rooms == old(self).rooms,
            final(self).rects == old(self).rects,
            final(self).starting_position == old(self).starting_position,
            final(self).depth == old(self).depth,
            final(self).show_snapshots == old(self).show_snapshots,
    {
        match build_snapshot(&self.map, self.show_snapshots) {
            Option::Some(t) => {
                self.history.push(t);
            },
            Option::None => {},
        }
    }

    /// Push the four quadrant candidates of a region onto the worklist.
    pub fn add_subrects(&mut self, rect: Rect)
        requires
            old(self).wf(),
            -100000 <= rect.x1 <= 100000,
            -100000 <= rect.x2 <= 100000,
            -100000 <= rect.y1 <= 100000,
            -100000 <= rect.y2 <= 100000,
        ensures
            final(self).wf(),
            final(self).map == old(self).map,
            final(self).rooms == old(self).rooms,
            final(self).depth == old(self).depth,
            final(self).starting_position == old(self).starting_position,
            final(self).show_snapshots == old(self).show_snapshots,
            final(self).rects@.len() == old(self).rects@.len() + 4,
    {
        let width = if rect.x1 <= rect.x2 { rect.x2 - rect.x1 } else { rect.x1 - rect.x2 };
        let height = if rect.y1 <= rect.y2 { rect.y2 - rect.y1 } else { rect.y1 - rect.y2 };
        let half_width = if width / 2 > 1 { width / 2 } else { 1 };
        let half_height = if height / 2 > 1 { height / 2 } else { 1 };

        self.rects.push(
            Rect { x1: rect.x1, y1: rect.y1, x2: rect.x1 + half_width,
                y2: rect.y1 + half_height },
        );
        self.rects.push(
            Rect { x1: rect.x1, y1: rect.y1 + half_height, x2: rect.x1 + half_width,
                y2: rect.y1 + half_height + half_height },
        );
        self.rects.push(
            Rect { x1: rect.x1 + half_width, y1: rect.y1, x2: rect.x1 + half_width + half_width,
                y2: rect.y1 + half_height },
        );
        self.rects.push(
            Rect { x1: rect.x1 + half_width, y1: rect.y1 + half_height,
                x2: rect.x1 + half_width + half_width, y2: rect.y1 + half_height + half_height },
        );
    }

    /// A random region from the worklist.
    pub fn get_random_rect(&self, rng: &mut RandomStream) -> (r: Rect)
        requires
            self.wf(),
            1 <= self.rects@.len() <= 100000,
        ensures
            exists|k: int| 0 <= k < self.rects@.len() && #[trigger] self.rects@[k] == r,
    {
        if self.rects.len() == 1 {
            return self.rects[0];
        }
        let idx = (rng.roll_dice(1, self.rects.len() as i32) - 1) as usize;
        self.rects[idx]
    }

    /// A random sub-rectangle of a region, clamped to modest room sizes.
    pub fn get_random_sub_rect(&self, rect: Rect, rng: &mut RandomStream) -> (r: Rect)
        requires
            self.wf(),
            -100000 <= rect.x1 <= 100000,
            -100000 <= rect.x2 <= 100000,
            -100000 <= rect.y1 <= 100000,
            -100000 <= rect.y2 <= 100000,
        ensures
            r.x1 + 4 <= r.x2,
            r.y1 + 4 <= r.y2,
            r.x2 <= r.x1 + 11,
            r.y2 <= r.y1 + 11,
            -101000 <= r.x1,
            r.x2 <= 101000,
            -101000 <= r.y1,
            r.y2 <= 101000,
    {
        let rect_width = if rect.x1 <= rect.x2 { rect.x2 - rect.x1 } else { rect.x1 - rect.x2 };
        let rect_height = if rect.y1 <= rect.y2 { rect.y2 - rect.y1 } else { rect.y1 - rect.y2 };
        let wcap = if rect_width < 10 { if rect_width < 1 { 1 } else { rect_width } } else { 10 };
        let hcap = if rect_height < 10 { if rect_height < 1 { 1 } else { rect_height } } else {
            10
        };
        let wroll = rng.roll_dice(1, wcap) - 1;
        let hroll = rng.roll_dice(1, hcap) - 1;
        let w = if 3 > wroll { 3 } else { wroll } + 1;
        let h = if 3 > hroll { 3 } else { hroll } + 1;
        let x1 = rect.x1 + (rng.roll_dice(1, 6) - 1);
        let y1 = rect.y1 + (rng.roll_dice(1, 6) - 1);
        Rect { x1, y1, x2: x1 + w, y2: y1 + h }
    }

    /// Whether the candidate, expanded by a two-tile buffer, lies inside the
    /// map and covers untouched wall only. An accepted candidate is a
    /// well-placed room whose buffer holds no carved floor.
    pub fn is_possible(&self, rect: Rect) -> (r: bool)
        requires
            self.wf(),
            // the two-tile expansion must stay inside i32, nothing more
            i32::MIN + 8 <= rect.x1,
            rect.x2 <= i32::MAX - 8,
            i32::MIN + 8 <= rect.y1,
            rect.y2 <= i32::MAX - 8,
        ensures
            r && rect.x1 + 2 <= rect.x2 && rect.y1 + 2 <= rect.y2
                ==> rect_in_grid(rect, self.map.width as int, self.map.height as int),
            r ==> forall|x: int, y: int| rect.x1 - 2 <= x <= rect.x2 + 2
                && rect.y1 - 2 <= y <= rect.y2 + 2
                ==> self.map.in_bounds(x, y)
                    && #[trigger] self.map.tiles@[self.map.idx(x, y)] == TileType::Wall,
            r <==> (forall|x: int, y: int| rect.x1 - 2 <= x <= rect.x2 + 2
                && rect.y1 - 2 <= y <= rect.y2 + 2
                ==> 1 <= x <= self.map.width - 2 && 1 <= y <= self.map.height - 2
                    && #[trigger] self.map.tiles@[self.map.idx(x, y)] == TileType::Wall),
    {
        let exp_x1 = rect.x1 - 2;
        let exp_x2 = rect.x2 + 2;
        let exp_y1 = rect.y1 - 2;
        let exp_y2 = rect.y2 + 2;

        let mut y = exp_y1;
        while y <= exp_y2
            invariant
                self.wf(),
                exp_x1 == rect.x1 - 2,
                exp_x2 == rect.x2 + 2,
                exp_y1 == rect.y1 - 2,
                exp_y2 == rect.y2 + 2,
                i32::MIN + 8 <= rect.x1,
                rect.x2 <= i32::MAX - 8,
                i32::MIN + 8 <= rect.y1,
                rect.y2 <= i32::MAX - 8,
                exp_y1 <= y,
                y <= exp_y2 + 1 || y == exp_y1,
                forall|a: int, b: int| exp_x1 <= a <= exp_x2 && exp_y1 <= b < y
                    ==> 1 <= a <= self.map.width - 2 && 1 <= b <= self.map.height - 2
                        && #[trigger] self.map.tiles@[self.map.idx(a, b)] == TileType::Wall,
            decreases exp_y2 + 1 - y,
        {
            let mut x = exp_x1;
            while x <= exp_x2
                invariant
                    self.wf(),
                    exp_x1 == rect.x1 - 2,
                    exp_x2 == rect.x2 + 2,
                    exp_y1 == rect.y1 - 2,
                    exp_y2 == rect.y2 + 2,
                    i32::MIN + 8 <= rect.x1,
                    rect.x2 <= i32::MAX - 8,
                    i32::MIN + 8 <= rect.y1,
                    rect.y2 <= i32::MAX - 8,
                    exp_y1 <= y <= exp_y2,
                    exp_x1 <= x,
                    x <= exp_x2 + 1 || x == exp_x1,
                    forall|a: int, b: int| exp_x1 <= a <= exp_x2 && exp_y1 <= b < y
                        ==> 1 <= a <= self.map.width - 2 && 1 <= b <= self.map.height - 2
                            && #[trigger] self.map.tiles@[self.map.idx(a, b)]
                                == TileType::Wall,
                    forall|a: int| exp_x1 <= a < x
                        ==> 1 <= a <= self.map.width - 2
                            && 1 <= y as int <= self.map.height - 2
                            && #[trigger] self.map.tiles@[self.map.idx(a, y as int)]
                                == TileType::Wall,
                decreases exp_x2 + 1 - x,
            {
                if x > self.map.width - 2 || y > self.map.height - 2 || x < 1 || y < 1 {
                    proof {
                        // (x, y) lies in the buffered rectangle and violates
                        // the margin, so the acceptance condition fails
                        assert(rect.x1 - 2 <= x as int <= rect.x2 + 2
                            && rect.y1 - 2 <= y as int <= rect.y2 + 2);
                        assert(!(1 <= x as int <= self.map.width - 2
                            && 1 <= y as int <= self.map.height - 2));
                    }
                    return false;
                }
                let t = self.map.get_tile(x, y);
                let is_wall = match t {
                    TileType::Wall => true,
                    _ => false,
                };
                if !is_wall {
                    proof {
                        assert(rect.x1 - 2 <= x as int <= rect.x2 + 2
                            && rect.y1 - 2 <= y as int <= rect.y2 + 2);
                        assert(self.map.tiles@[self.map.idx(x as int, y as int)]
                            != TileType::Wall);
                    }
                    return false;
                }
                x = x + 1;
            }
            y = y + 1;
        }
        proof {
            // a non-degenerate accepted rectangle sits inside the border:
            // its expanded corners passed the margin test
            if rect.x1 + 2 <= rect.x2 && rect.y1 + 2 <= rect.y2 {
                assert(self.map.tiles@[self.map.idx(rect.x1 - 2, rect.y1 - 2)]
                    == TileType::Wall && 1 <= rect.x1 - 2 && 1 <= rect.y1 - 2);
                assert(self.map.tiles@[self.map.idx(rect.x2 + 2, rect.y2 + 2)]
                    == TileType::Wall && rect.x2 + 2 <= self.map.width - 2
                    && rect.y2 + 2 <= self.map.height - 2);
            }
        }
        true
    }

    /// Order the rooms by their left edge with an insertion sort. The set of
    /// rooms keeps everything the later passes rely on: placement, pairwise
    /// separation, and carved interiors.
    pub fn sort_rooms(&mut self)
        requires
            old(self).wf(),
            bsp_rooms_ok(old(self).rooms@, old(self).map),
        ensures
            final(self).wf(),
            final(self).map == old(self).map,
            final(self).depth == old(self).depth,
            final(self).starting_position == old(self).starting_position,
            final(self).show_snapshots == old(self).show_snapshots,
            final(self).rooms@.len() == old(self).rooms@.len(),
            bsp_rooms_ok(final(self).rooms@, final(self).map),
            forall|a: int, b: int| 0 <= a < b < final(self).rooms@.len()
                ==> final(self).rooms@[a].x1 <= final(self).rooms@[b].x1,
            // the sort permutes the rooms: every stored room survives and
            // nothing new appears (the rooms are pairwise distinct, since
            // equal rooms would overlap)
            forall|k: int| 0 <= k < old(self).rooms@.len()
                ==> final(self).rooms@.contains(#[trigger] old(self).rooms@[k]),
            forall|k: int| 0 <= k < final(self).rooms@.len()
                ==> old(self).rooms@.contains(#[trigger] final(self).rooms@[k]),
    {
        let n = self.rooms.len();
        let mut i: usize = 1;
        while i < n
            invariant
                self.wf(),
                self.map == old(self).map,
                self.depth == old(self).depth,
                self.starting_position == old(self).starting_position,
                self.show_snapshots == old(self).show_snapshots,
                n == self.rooms@.len(),
                1 <= i || n == 0,
                i <= n || n == 0,
                bsp_rooms_ok(self.rooms@, self.map),
                forall|k: int| 0 <= k < old(self).rooms@.len()
                    ==> self.rooms@.contains(#[trigger] old(self).rooms@[k]),
                forall|k: int| 0 <= k < self.rooms@.len()
                    ==> old(self).rooms@.contains(#[trigger] self.rooms@[k]),
                forall|a: int, b: int| 0 <= a < b < i
                    ==> self.rooms@[a].x1 <= self.rooms@[b].x1,
            decreases n - i,
        {
            let mut j: usize = i;
            while j > 0 && self.rooms[j - 1].x1 > self.rooms[j].x1
                invariant
                    self.wf(),
                    self.map == old(self).map,
                    self.depth == old(self).depth,
                    self.starting_position == old(self).starting_position,
                    self.show_snapshots == old(self).show_snapshots,
                    n == self.rooms@.len(),
                    j <= i,
                    i < n,
                    bsp_rooms_ok(self.rooms@, self.map),
                    forall|k: int| 0 <= k < old(self).rooms@.len()
                        ==> self.rooms@.contains(#[trigger] old(self).rooms@[k]),
                    forall|k: int| 0 <= k < self.rooms@.len()
                        ==> old(self).rooms@.contains(#[trigger] self.rooms@[k]),
                    forall|a: int, b: int| 0 <= a < b <= i as int && a != j && b != j
                        ==> self.rooms@[a].x1 <= self.rooms@[b].x1,
                    forall|a: int| j < a <= i as int
                        ==> self.rooms@[j as int].x1 <= (#[trigger] self.rooms@[a]).x1,
                decreases j,
            {
                let ghost pre = self.rooms@;
                let a = self.rooms[j - 1];
                let b = self.rooms[j];
                self.rooms.set(j - 1, b);
                self.rooms.set(j, a);
                proof {
                    // the swap keeps exactly the same rooms
                    assert forall|k: int| 0 <= k < old(self).rooms@.len()
                        implies self.rooms@.contains(#[trigger] old(self).rooms@[k]) by {
                        let q = choose|q: int| 0 <= q < pre.len()
                            && pre[q] == old(self).rooms@[k];
                        if q == j - 1 {
                            assert(self.rooms@[j as int] == pre[q]);
                        } else if q == j as int {
                            assert(self.rooms@[j - 1] == pre[q]);
                        } else {
                            assert(self.rooms@[q] == pre[q]);
                        }
                    }
                    assert forall|k: int| 0 <= k < self.rooms@.len()
                        implies old(self).rooms@.contains(#[trigger] self.rooms@[k]) by {
                        if k == j - 1 {
                            assert(self.rooms@[k] == pre[j as int]);
                            assert(old(self).rooms@.contains(pre[j as int]));
                        } else if k == j as int {
                            assert(self.rooms@[k] == pre[j - 1]);
                            assert(old(self).rooms@.contains(pre[j - 1]));
                        } else {
                            assert(old(self).rooms@.contains(pre[k]));
                        }
                    }
                    assert forall|k1: int, k2: int| 0 <= k1 < k2 < self.rooms@.len()
                        implies !rects_overlap(self.rooms@[k1], self.rooms@[k2]) by {
                        if k1 == j - 1 && k2 == j as int {
                            assert(!rects_overlap(pre[j - 1], pre[j as int]));
                        } else if k1 == j - 1 {
                            assert(!rects_overlap(pre[j as int], pre[k2]));
                        } else if k1 == j as int {
                            assert(!rects_overlap(pre[j - 1], pre[k2]));
                        } else if k2 == j - 1 {
                            assert(!rects_overlap(pre[k1], pre[j as int]));
                        } else if k2 == j as int {
                            assert(!rects_overlap(pre[k1], pre[j - 1]));
                        } else {
                            assert(!rects_overlap(pre[k1], pre[k2]));
                        }
                    }
                    assert forall|k: int, x: int, y: int| 0 <= k < self.rooms@.len()
                        && in_rect_interior(#[trigger] self.rooms@[k], x, y)
                        implies #[trigger] self.map.tiles@[self.map.idx(x, y)]
                            == TileType::Floor by {
                        if k == j - 1 {
                            assert(in_rect_interior(pre[j as int], x, y));
                        } else if k == j as int {
                            assert(in_rect_interior(pre[j - 1], x, y));
                        } else {
                            assert(in_rect_interior(pre[k], x, y));
                        }
                    }
                    assert forall|k: int| 0 <= k < self.rooms@.len()
                        implies rect_in_grid(#[trigger] self.rooms@[k],
                            self.map.width as int, self.map.height as int) by {
                        if k == j - 1 {
                            assert(rect_in_grid(pre[j as int],
                                self.map.width as int, self.map.height as int));
                        } else if k == j as int {
                            assert(rect_in_grid(pre[j - 1],
                                self.map.width as int, self.map.height as int));
                        }
                    }
                    // the swap restores order everywhere but at the new hole
                    assert forall|a: int, b: int| 0 <= a < b <= i as int
                        && a != j - 1 && b != j - 1
                        implies self.rooms@[a].x1 <= self.rooms@[b].x1 by {
                        if a == j as int {
                            assert(self.rooms@[a] == pre[j - 1]);
                            if b > j as int {
                                assert(pre[j - 1].x1 > pre[j as int].x1);
                                assert(pre[j as int].x1 <= pre[b].x1);
                            }
                        } else if b == j as int {
                            assert(self.rooms@[b] == pre[j - 1]);
                            assert(pre[a].x1 <= pre[j - 1].x1 || a == j - 1);
                        } else {
                            assert(self.rooms@[a] == pre[a] && self.rooms@[b] == pre[b]);
                        }
                    }
                    assert forall|a: int| j - 1 < a <= i as int
                        implies self.rooms@[j - 1].x1 <= (#[trigger] self.rooms@[a]).x1 by {
                        assert(self.rooms@[j - 1] == pre[j as int]);
                        if a == j as int {
                            assert(self.rooms@[a] == pre[j - 1]);
                        } else {
                            assert(self.rooms@[a] == pre[a]);
                            assert(pre[j as int].x1 <= pre[a].x1);
                        }
                    }
                }
                j = j - 1;
            }
            proof {
                // with the hole settled, the prefix through i is sorted
                assert forall|a: int, b: int| 0 <= a < b < i + 1
                    implies self.rooms@[a].x1 <= self.rooms@[b].x1 by {
                    if a == j as int {
                        if j > 0 {
                            assert(self.rooms@[j - 1].x1 <= self.rooms@[j as int].x1);
                        }
                    } else if b == j as int {
                        if j > 0 {
                            assert(self.rooms@[a].x1 <= self.rooms@[j - 1].x1 || a == j - 1);
                            assert(self.rooms@[j - 1].x1 <= self.rooms@[j as int].x1);
                        }
                    }
                }
            }
            i = i + 1;
        }
    }

    /// Carve jittered corridors between consecutive rooms.
    pub fn add_corridors(&mut self, rng: &mut RandomStream)
        requires
            old(self).wf(),
            bsp_rooms_ok(old(self).rooms@, old(self).map),
        ensures
            final(self).wf(),
            final(self).map.width == old(self).map.width,
            final(self).map.height == old(self).map.height,
            final(self).map.depth == old(self).map.depth,
            final(self).rooms == old(self).rooms,
            final(self).depth == old(self).depth,
            final(self).starting_position == old(self).starting_position,
            final(self).show_snapshots == old(self).show_snapshots,
            forall|i: int| 0 <= i < final(self).map.tiles@.len()
                ==> final(self).map.tiles@[i] == old(self).map.tiles@[i]
                    || #[trigger] final(self).map.tiles@[i] == TileType::Floor,
    {
        if self.rooms.len() == 0 {
            return ;
        }
        let count = self.rooms.len() - 1;
        let mut i: usize = 0;
        while i < count
            invariant
                old(self).wf(),
                self.wf(),
                self.map.width == old(self).map.width,
                self.map.height == old(self).map.height,
                self.map.depth == old(self).map.depth,
                self.rooms == old(self).rooms,
                self.depth == old(self).depth,
                self.starting_position == old(self).starting_position,
                self.show_snapshots == old(self).show_snapshots,
                count == self.rooms@.len() - 1,
                i <= count,
                rooms_wf(self.rooms@, self.map),
                forall|q: int| 0 <= q < self.map.tiles@.len()
                    ==> self.map.tiles@[q] == old(self).map.tiles@[q]
                        || #[trigger] self.map.tiles@[q] == TileType::Floor,
            decreases count - i,
        {
            let room = self.rooms[i];
            let next_room = self.rooms[i + 1];
            let start_x = room.x1 + (rng.roll_dice(1, room.x2 - room.x1) - 1);
            let start_y = room.y1 + (rng.roll_dice(1, room.y2 - room.y1) - 1);
            let end_x = next_room.x1 + (rng.roll_dice(1, next_room.x2 - next_room.x1) - 1);
            let end_y = next_room.y1 + (rng.roll_dice(1, next_room.y2 - next_room.y1) - 1);
            draw_corridor(&mut self.map, start_x, start_y, end_x, end_y);
            self.take_snapshot();
            i = i + 1;
        }
    }

    /// Stamp the exit at the last room's center.
    pub fn add_stairs(&mut self)
        requires
            old(self).wf(),
            old(self).rooms@.len() >= 1,
            rooms_wf(old(self).rooms@, old(self).map),
            no_stairs(old(self).map),
        ensures
            final(self).wf(),
            final(self).map.width == old(self).map.width,
            final(self).map.height == old(self).map.height,
            final(self).map.depth == old(self).map.depth,
            final(self).rooms == old(self).rooms,
            final(self).depth == old(self).depth,
            final(self).starting_position == old(self).starting_position,
            single_stairs(final(self).map),
            forall|i: int| 0 <= i < final(self).map.tiles@.len()
                ==> final(self).map.tiles@[i] == old(self).map.tiles@[i]
                    || #[trigger] final(self).map.tiles@[i] == TileType::StairsDown,
    {
        let last = self.rooms.len() - 1;
        let room = self.rooms[last];
        proof {
            lemma_center_in_interior(room, self.map.width as int, self.map.height as int);
        }
        let (x, y) = room.center();
        let stairs_position = self.map.xy_idx(x, y);
        let ghost pre = self.map;
        self.map.tiles.set(stairs_position, TileType::StairsDown);
        proof {
            assert(single_stairs(self.map)) by {
                assert(self.map.tiles@[stairs_position as int] == TileType::StairsDown);
                assert(forall|j: int| 0 <= j < self.map.tiles@.len() && j != stairs_position
                    ==> self.map.tiles@[j] == pre.tiles@[j]);
            }
        }
    }

    /// Propose candidates over the shrinking region worklist, accepting each
    /// one whose buffered footprint is untouched wall, so that no two
    /// accepted rooms ever overlap.
    pub fn add_rooms(&mut self, rng: &mut RandomStream)
        requires
            old(self).wf(),
            old(self).rooms@.len() == 0,
            no_stairs(old(self).map),
        ensures
            final(self).wf(),
            final(self).map.width == old(self).map.width,
            final(self).map.height == old(self).map.height,
            final(self).map.depth == old(self).map.depth,
            final(self).depth == old(self).depth,
            final(self).starting_position == old(self).starting_position,
            final(self).show_snapshots == old(self).show_snapshots,
            final(self).rooms@.len() >= 1,
            no_stairs(final(self).map),
            bsp_rooms_ok(final(self).rooms@, final(self).map),
    {
        self.rects = Vec::new();
        let w = self.map.width;
        let h = self.map.height;
        let first = Rect { x1: 2, y1: 2, x2: w - 3, y2: h - 3 };
        self.add_subrects(first);

        let mut room_count: i32 = 0;
        while room_count < 240
            invariant
                old(self).wf(),
                self.wf(),
                self.map.width == old(self).map.width,
                self.map.height == old(self).map.height,
                self.map.depth == old(self).map.depth,
                self.depth == old(self).depth,
                self.starting_position == old(self).starting_position,
                self.show_snapshots == old(self).show_snapshots,
                0 <= room_count <= 240,
                1 <= self.rects@.len(),
                self.rects@.len() <= 4 + 4 * room_count,
                no_stairs(self.map),
                bsp_rooms_ok(self.rooms@, self.map),
            decreases 240 - room_count,
        {
            let rect = self.get_random_rect(rng);
            let rect = clamp_rect(rect);
            let candidate = self.get_random_sub_rect(rect, rng);

            if self.is_possible(candidate) {
                let ghost pre = *self;
                apply_room_to_map(&mut self.map, &candidate);
                self.rooms.push(candidate);
                proof {
                    // the candidate's buffer held no floor, and every room
                    // interior is floor, so the candidate overlaps no room
                    assert forall|k: int| 0 <= k < self.rooms@.len() - 1
                        implies !rects_overlap(candidate, #[trigger] self.rooms@[k]) by {
                        let r = self.rooms@[k];
                        assert(r == pre.rooms@[k]);
                        if rects_overlap(candidate, r) {
                            let wx = max_i(r.x1 as int + 1, candidate.x1 as int);
                            let wy = max_i(r.y1 as int + 1, candidate.y1 as int);
                            assert(in_rect_interior(r, wx, wy));
                            assert(candidate.x1 - 2 <= wx <= candidate.x2 + 2);
                            assert(candidate.y1 - 2 <= wy <= candidate.y2 + 2);
                            assert(pre.map.tiles@[pre.map.idx(wx, wy)] == TileType::Wall);
                            assert(pre.map.tiles@[pre.map.idx(wx, wy)] == TileType::Floor);
                        }
                    }
                    assert forall|k1: int, k2: int| 0 <= k1 < k2 < self.rooms@.len()
                        implies !rects_overlap(self.rooms@[k1], self.rooms@[k2]) by {
                        if k2 == self.rooms@.len() - 1 {
                            assert(!rects_overlap(candidate, self.rooms@[k1]));
                        } else {
                            assert(!rects_overlap(pre.rooms@[k1], pre.rooms@[k2]));
                        }
                    }
                    assert forall|k: int, x: int, y: int| 0 <= k < self.rooms@.len()
                        && in_rect_interior(#[trigger] self.rooms@[k], x, y)
                        implies #[trigger] self.map.tiles@[self.map.idx(x, y)]
                            == TileType::Floor by {
                        self.map.lemma_idx_bounds(x, y);
                        if k < self.rooms@.len() - 1 {
                            assert(pre.map.tiles@[pre.map.idx(x, y)] == TileType::Floor);
                            assert(self.map.tiles@[pre.map.idx(x, y)]
                                == pre.map.tiles@[pre.map.idx(x, y)]
                                || self.map.tiles@[pre.map.idx(x, y)] == TileType::Floor);
                        } else {
                            assert(self.map.tiles@[pre.map.idx(x, y)] == TileType::Floor);
                        }
                    }
                }
                self.add_subrects(rect);
                self.take_snapshot();
            }
            room_count = room_count + 1;
        }

        if self.rooms.len() == 0 {
            // no random candidate fit: carve one deterministic room so the
            // dungeon always has a start and an exit
            let fallback = Rect { x1: w / 2 - 3, y1: h / 2 - 3, x2: w / 2 + 3, y2: h / 2 + 3 };
            proof {
                assert(rect_in_grid(fallback, self.map.width as int, self.map.height as int));
            }
            let ghost pre = *self;
            apply_room_to_map(&mut self.map, &fallback);
            self.rooms.push(fallback);
            proof {
                assert forall|k: int, x: int, y: int| 0 <= k < self.rooms@.len()
                    && in_rect_interior(#[trigger] self.rooms@[k], x, y)
                    implies #[trigger] self.map.tiles@[self.map.idx(x, y)]
                        == TileType::Floor by {
                    self.map.lemma_idx_bounds(x, y);
                    assert(self.map.tiles@[pre.map.idx(x, y)] == TileType::Floor);
                }
            }
        }
    }

    /// Build the dungeon: place buffered rooms, order them by x-coordinate,
    /// connect consecutive rooms, start at the first room's center, then
    /// repair connectivity from the start and stamp the most distant
    /// reachable tile as the exit. No two rooms overlap, every walkable tile
    /// is reachable from the start, and the map holds exactly one StairsDown.
    pub fn build(&mut self, rng: &mut RandomStream)
        requires
            old(self).wf(),
            old(self).rooms@.len() == 0,
            no_stairs(old(self).map),
        ensures
            final(self).wf(),
            final(self).map.width == old(self).map.width,
            final(self).map.height == old(self).map.height,
            final(self).map.depth == old(self).map.depth,
            final(self).depth == old(self).depth,
            final(self).rooms@.len() >= 1,
            rooms_wf(final(self).rooms@, final(self).map),
            forall|a: int, b: int| 0 <= a < b < final(self).rooms@.len()
                ==> final(self).rooms@[a].x1 <= final(self).rooms@[b].x1,
            fully_connected(
                final(self).map,
                final(self).starting_position.x as int,
                final(self).starting_position.y as int,
            ),
            single_stairs(final(self).map),
            final(self).map.in_bounds(
                final(self).starting_position.x as int,
                final(self).starting_position.y as int,
            ),
            walkable(final(self).map.tiles@[final(self).map.idx(
                final(self).starting_position.x as int,
                final(self).starting_position.y as int,
            )]),
    {
        self.add_rooms(rng);

        let first_room = self.rooms[0];
        proof {
            lemma_center_in_interior(first_room, self.map.width as int, self.map.height as int);
            self.map.lemma_idx_bounds(
                ((first_room.x1 + first_room.x2) / 2) as int,
                ((first_room.y1 + first_room.y2) / 2) as int,
            );
        }
        let (x, y) = first_room.center();
        self.starting_position = Position { x, y };
        proof {
            assert(self.map.tiles@[self.map.idx(x as int, y as int)] == TileType::Floor);
        }

        let ghost placed = *self;
        self.sort_rooms();

        let ghost sorted = *self;
        self.add_corridors(rng);
        proof {
            let sp = self.starting_position;
            self.map.lemma_idx_bounds(sp.x as int, sp.y as int);
            // the start tile was floor when the rooms were placed, the sort
            // does not touch the map, and corridors only add floor
            assert(self.map.tiles@[self.map.idx(sp.x as int, sp.y as int)]
                == TileType::Floor) by {
                assert(placed.map.tiles@[placed.map.idx(sp.x as int, sp.y as int)]
                    == TileType::Floor);
                assert(sorted.map.tiles@[sorted.map.idx(sp.x as int, sp.y as int)]
                    == TileType::Floor);
            }
        }

        // a corridor endpoint can sit on an uncarved border tile, so a room
        // chain is not guaranteed to connect; repair from the start and put
        // the exit on the most distant reachable tile
        let sp = self.starting_position;
        let _exit = finalize_exit(&mut self.map, sp.x, sp.y);
        self.take_snapshot();
    }

    /// A copy of the finished map.
    pub fn get_map(&self) -> (m: Grid)
        ensures
            m.width == self.map.width,
            m.height == self.map.height,
            m.depth == self.map.depth,
            m.tiles@ == self.map.tiles@,
    {
        self.map.clone()
    }

    /// The chosen starting position.
    pub fn get_starting_position(&self) -> (p: Position)
        ensures
            p == self.starting_position,
    {
        self.starting_position
    }
}

/// Clamp a worklist region's corners into a safe coordinate range; regions
/// produced from the in-map seed already satisfy it, so this only bounds the
/// arithmetic of the candidate proposal.
fn clamp_rect(r: Rect) -> (c: Rect)
    ensures
        -100000 <= c.x1 <= 100000,
        -100000 <= c.x2 <= 100000,
        -100000 <= c.y1 <= 100000,
        -100000 <= c.y2 <= 100000,
{
    let x1 = if r.x1 < -100000 { -100000 } else if r.x1 > 100000 { 100000 } else { r.x1 };
    let x2 = if r.x2 < -100000 { -100000 } else if r.x2 > 100000 { 100000 } else { r.x2 };
    let y1 = if r.y1 < -100000 { -100000 } else if r.y1 > 100000 { 100000 } else { r.y1 };
    let y2 = if r.y2 < -100000 { -100000 } else if r.y2 > 100000 { 100000 } else { r.y2 };
    Rect { x1, y1, x2, y2 }
}

} // verus!
