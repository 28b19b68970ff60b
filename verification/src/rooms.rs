//! Room and corridor carving shared by the room-placing generators.

use vstd::prelude::*;
use crate::grid::Grid;
use crate::rect::Rect;
use crate::tile::TileType;

verus! {

/// (x, y) lies in the carved interior of `r`: the rectangle minus its
/// top and left border rows.
pub open spec fn in_rect_interior(r: Rect, x: int, y: int) -> bool {
    r.x1 < x <= r.x2 && r.y1 < y <= r.y2
}

/// `r` lies inside a `w` x `h` grid with a one-tile wall margin, and is wide
/// and tall enough for its center to fall in its carved interior.
pub open spec fn rect_in_grid(r: Rect, w: int, h: int) -> bool {
    &&& 0 <= r.x1
    &&& r.x1 + 2 <= r.x2
    &&& r.x2 < w - 1
    &&& 0 <= r.y1
    &&& r.y1 + 2 <= r.y2
    &&& r.y2 < h - 1
}

/// The center of a well-placed rectangle lies in its carved interior.
pub proof fn lemma_center_in_interior(r: Rect, w: int, h: int)
    requires
        rect_in_grid(r, w, h),
    ensures
        in_rect_interior(r, (r.x1 + r.x2) as int / 2, (r.y1 + r.y2) as int / 2),
{
}

/// Carve the interior of `room` to floor; every other tile keeps its kind.
pub fn apply_room_to_map(map: &mut Grid, room: &Rect)
    requires
        old(map).inv(),
        rect_in_grid(*room, old(map).width as int, old(map).height as int),
    ensures
        final(map).inv(),
        final(map).width == old(map).width,
        final(map).height == old(map).height,
        final(map).depth == old(map).depth,
        final(map).tiles@.len() == old(map).tiles@.len(),
        forall|i: int| 0 <= i < final(map).tiles@.len()
            ==> final(map).tiles@[i] == old(map).tiles@[i]
                || #[trigger] final(map).tiles@[i] == TileType::Floor,
        forall|x: int, y: int| old(map).in_bounds(x, y)
            ==> #[trigger] final(map).tiles@[old(map).idx(x, y)]
                == if in_rect_interior(*room, x, y) {
                    TileType::Floor
                } else {
                    old(map).tiles@[old(map).idx(x, y)]
                },
    {
    let y_end = room.y2;
    let x_end = room.x2;
    let mut y = room.y1 + 1;
    while y <= y_end
        invariant
            old(map).inv(),
            map.inv(),
            map.width == old(map).width,
            map.height == old(map).height,
            map.depth == old(map).depth,
            map.tiles@.len() == old(map).tiles@.len(),
            rect_in_grid(*room, map.width as int, map.height as int),
            y_end == room.y2,
            x_end == room.x2,
            room.y1 < y <= room.y2 + 1,
            forall|i: int| 0 <= i < map.tiles@.len()
                ==> map.tiles@[i] == old(map).tiles@[i]
                    || #[trigger] map.tiles@[i] == TileType::Floor,
            forall|a: int, b: int| old(map).in_bounds(a, b)
                ==> #[trigger] map.tiles@[old(map).idx(a, b)]
                    == if in_rect_interior(*room, a, b) && b < y {
                        TileType::Floor
                    } else {
                        old(map).tiles@[old(map).idx(a, b)]
                    },
        decreases y_end + 1 - y,
    {
        let mut x = room.x1 + 1;
        while x <= x_end
            invariant
                old(map).inv(),
                map.inv(),
                map.width == old(map).width,
                map.height == old(map).height,
                map.depth == old(map).depth,
                map.tiles@.len() == old(map).tiles@.len(),
                rect_in_grid(*room, map.width as int, map.height as int),
                y_end == room.y2,
                x_end == room.x2,
                room.y1 < y <= room.y2,
                room.x1 < x <= room.x2 + 1,
                forall|i: int| 0 <= i < map.tiles@.len()
                    ==> map.tiles@[i] == old(map).tiles@[i]
                        || #[trigger] map.tiles@[i] == TileType::Floor,
                forall|a: int, b: int| old(map).in_bounds(a, b)
                    ==> #[trigger] map.tiles@[old(map).idx(a, b)]
                        == if in_rect_interior(*room, a, b) && (b < y || (b == y && a < x)) {
                            TileType::Floor
                        } else {
                            old(map).tiles@[old(map).idx(a, b)]
                        },
            decreases x_end + 1 - x,
        {
            let i = map.xy_idx(x, y);
            proof {
                assert(i == old(map).idx(x as int, y as int));
            }
            map.tiles.set(i, TileType::Floor);
            proof {
                assert forall|a: int, b: int| old(map).in_bounds(a, b)
                    implies #[trigger] map.tiles@[old(map).idx(a, b)]
                        == if in_rect_interior(*room, a, b)
                            && (b < y as int || (b == y as int && a < x as int + 1)) {
                            TileType::Floor
                        } else {
                            old(map).tiles@[old(map).idx(a, b)]
                        } by {
                    old(map).lemma_idx_bounds(a, b);
                    if a != x as int || b != y as int {
                        if old(map).idx(a, b) == old(map).idx(x as int, y as int) {
                            old(map).lemma_idx_injective(a, b, x as int, y as int);
                        }
                    }
                }
            }
            x = x + 1;
        }
        y = y + 1;
    }
}

/// Carve a horizontal tunnel at row `y` between columns `x1` and `x2`
/// (inclusive, in either order); every other tile keeps its kind.
pub fn apply_horizontal_tunnel(map: &mut Grid, x1: i32, x2: i32, y: i32)
    requires
        old(map).inv(),
        0 <= x1 < old(map).width,
        0 <= x2 < old(map).width,
        0 <= y < old(map).height,
    ensures
        final(map).inv(),
        final(map).width == old(map).width,
        final(map).height == old(map).height,
        final(map).depth == old(map).depth,
        final(map).tiles@.len() == old(map).tiles@.len(),
        forall|i: int| 0 <= i < final(map).tiles@.len()
            ==> final(map).tiles@[i] == old(map).tiles@[i]
                || #[trigger] final(map).tiles@[i] == TileType::Floor,
        forall|a: int, b: int| old(map).in_bounds(a, b)
            ==> #[trigger] final(map).tiles@[old(map).idx(a, b)]
                == if b == y as int && min_i(x1 as int, x2 as int) <= a
                    <= max_i(x1 as int, x2 as int) {
                    TileType::Floor
                } else {
                    old(map).tiles@[old(map).idx(a, b)]
                },
    {
    let lo = if x1 < x2 { x1 } else { x2 };
    let hi = if x1 < x2 { x2 } else { x1 };
    let mut x = lo;
    while x <= hi
        invariant
            old(map).inv(),
            map.inv(),
            map.width == old(map).width,
            map.height == old(map).height,
            map.depth == old(map).depth,
            map.tiles@.len() == old(map).tiles@.len(),
            lo == min_i(x1 as int, x2 as int),
            hi == max_i(x1 as int, x2 as int),
            0 <= lo,
            hi < map.width,
            0 <= y < map.height,
            lo <= x <= hi + 1,
            forall|i: int| 0 <= i < map.tiles@.len()
                ==> map.tiles@[i] == old(map).tiles@[i]
                    || #[trigger] map.tiles@[i] == TileType::Floor,
            forall|a: int, b: int| old(map).in_bounds(a, b)
                ==> #[trigger] map.tiles@[old(map).idx(a, b)]
                    == if b == y as int && lo <= a < x {
                        TileType::Floor
                    } else {
                        old(map).tiles@[old(map).idx(a, b)]
                    },
        decreases hi + 1 - x,
    {
        let i = map.xy_idx(x, y);
        proof {
            assert(i == old(map).idx(x as int, y as int));
        }
        map.tiles.set(i, TileType::Floor);
        proof {
            assert forall|a: int, b: int| old(map).in_bounds(a, b)
                implies #[trigger] map.tiles@[old(map).idx(a, b)]
                    == if b == y as int && lo <= a < x as int + 1 {
                        TileType::Floor
                    } else {
                        old(map).tiles@[old(map).idx(a, b)]
                    } by {
                old(map).lemma_idx_bounds(a, b);
                if a != x as int || b != y as int {
                    if old(map).idx(a, b) == old(map).idx(x as int, y as int) {
                        old(map).lemma_idx_injective(a, b, x as int, y as int);
                    }
                }
            }
        }
        x = x + 1;
    }
}

/// Carve a vertical tunnel at column `x` between rows `y1` and `y2`
/// (inclusive, in either order); every other tile keeps its kind.
pub fn apply_vertical_tunnel(map: &mut Grid, y1: i32, y2: i32, x: i32)
    requires
        old(map).inv(),
        0 <= y1 < old(map).height,
        0 <= y2 < old(map).height,
        0 <= x < old(map).width,
    ensures
        final(map).inv(),
        final(map).width == old(map).width,
        final(map).height == old(map).height,
        final(map).depth == old(map).depth,
        final(map).tiles@.len() == old(map).tiles@.len(),
        forall|i: int| 0 <= i < final(map).tiles@.len()
            ==> final(map).tiles@[i] == old(map).tiles@[i]
                || #[trigger] final(map).tiles@[i] == TileType::Floor,
        forall|a: int, b: int| old(map).in_bounds(a, b)
            ==> #[trigger] final(map).tiles@[old(map).idx(a, b)]
                == if a == x as int && min_i(y1 as int, y2 as int) <= b
                    <= max_i(y1 as int, y2 as int) {
                    TileType::Floor
                } else {
                    old(map).tiles@[old(map).idx(a, b)]
                },
    {
    let lo = if y1 < y2 { y1 } else { y2 };
    let hi = if y1 < y2 { y2 } else { y1 };
    let mut y = lo;
    while y <= hi
        invariant
            old(map).inv(),
            map.inv(),
            map.width == old(map).width,
            map.height == old(map).height,
            map.depth == old(map).depth,
            map.tiles@.len() == old(map).tiles@.len(),
            lo == min_i(y1 as int, y2 as int),
            hi == max_i(y1 as int, y2 as int),
            0 <= lo,
            hi < map.height,
            0 <= x < map.width,
            lo <= y <= hi + 1,
            forall|i: int| 0 <= i < map.tiles@.len()
                ==> map.tiles@[i] == old(map).tiles@[i]
                    || #[trigger] map.tiles@[i] == TileType::Floor,
            forall|a: int, b: int| old(map).in_bounds(a, b)
                ==> #[trigger] map.tiles@[old(map).idx(a, b)]
                    == if a == x as int && lo <= b < y {
                        TileType::Floor
                    } else {
                        old(map).tiles@[old(map).idx(a, b)]
                    },
        decreases hi + 1 - y,
    {
        let i = map.xy_idx(x, y);
        proof {
            assert(i == old(map).idx(x as int, y as int));
        }
        map.tiles.set(i, TileType::Floor);
        proof {
            assert forall|a: int, b: int| old(map).in_bounds(a, b)
                implies #[trigger] map.tiles@[old(map).idx(a, b)]
                    == if a == x as int && lo <= b < y as int + 1 {
                        TileType::Floor
                    } else {
                        old(map).tiles@[old(map).idx(a, b)]
                    } by {
                old(map).lemma_idx_bounds(a, b);
                if a != x as int || b != y as int {
                    if old(map).idx(a, b) == old(map).idx(x as int, y as int) {
                        old(map).lemma_idx_injective(a, b, x as int, y as int);
                    }
                }
            }
        }
        y = y + 1;
    }
}

/// The floor tiles inside a room's carved interior, as flat indices: the
/// candidate spawn locations the room offers. Every interior floor tile of
/// the room is listed.
pub fn room_floor_indices(map: &Grid, room: &Rect) -> (r: Vec<usize>)
    requires
        map.inv(),
        rect_in_grid(*room, map.width as int, map.height as int),
    ensures
        forall|k: int| 0 <= k < r@.len() ==> (#[trigger] r@[k]) < map.tiles@.len()
            && map.tiles@[r@[k] as int] == TileType::Floor,
        forall|a: int, b: int| room.x1 < a <= room.x2 && room.y1 < b <= room.y2
            && map.tiles@[#[trigger] map.idx(a, b)] == TileType::Floor
            ==> r@.contains(map.idx(a, b) as usize),
{
    let mut r: Vec<usize> = Vec::new();
    let mut y = room.y1 + 1;
    while y <= room.y2
        invariant
            map.inv(),
            rect_in_grid(*room, map.width as int, map.height as int),
            room.y1 < y <= room.y2 + 1,
            forall|k: int| 0 <= k < r@.len() ==> (#[trigger] r@[k]) < map.tiles@.len()
                && map.tiles@[r@[k] as int] == TileType::Floor,
            forall|a: int, b: int| room.x1 < a <= room.x2 && room.y1 < b < y
                && map.tiles@[#[trigger] map.idx(a, b)] == TileType::Floor
                ==> r@.contains(map.idx(a, b) as usize),
        decreases room.y2 + 1 - y,
    {
        let mut x = room.x1 + 1;
        while x <= room.x2
            invariant
                map.inv(),
                rect_in_grid(*room, map.width as int, map.height as int),
                room.y1 < y <= room.y2,
                room.x1 < x <= room.x2 + 1,
                forall|k: int| 0 <= k < r@.len() ==> (#[trigger] r@[k]) < map.tiles@.len()
                    && map.tiles@[r@[k] as int] == TileType::Floor,
                forall|a: int, b: int| room.x1 < a <= room.x2 && (room.y1 < b < y
                    || (b == y && room.x1 < a < x))
                    && map.tiles@[#[trigger] map.idx(a, b)] == TileType::Floor
                    ==> r@.contains(map.idx(a, b) as usize),
            decreases room.x2 + 1 - x,
        {
            let i = map.xy_idx(x, y);
            let t = map.tiles[i];
            let is_floor = match t {
                TileType::Floor => true,
                _ => false,
            };
            let ghost rpre = r@;
            if is_floor {
                r.push(i);
            }
            proof {
                // earlier hits stay listed, and the current tile is listed
                // now when it is floor
                assert forall|a: int, b: int| room.x1 < a <= room.x2
                    && (room.y1 < b < y as int || (b == y as int && room.x1 < a < x as int + 1))
                    && map.tiles@[#[trigger] map.idx(a, b)] == TileType::Floor
                    implies r@.contains(map.idx(a, b) as usize) by {
                    if b == y as int && a == x as int {
                        assert(r@[r@.len() - 1] == map.idx(a, b) as usize);
                    } else {
                        assert(rpre.contains(map.idx(a, b) as usize));
                        let k = choose|k: int| 0 <= k < rpre.len()
                            && rpre[k] == map.idx(a, b) as usize;
                        assert(r@[k] == map.idx(a, b) as usize);
                    }
                }
            }
            x = x + 1;
        }
        y = y + 1;
    }
    r
}

/// The smaller of two mathematical integers.
pub open spec fn min_i(a: int, b: int) -> int {
    if a < b { a } else { b }
}

/// The larger of two mathematical integers.
pub open spec fn max_i(a: int, b: int) -> int {
    if a < b { b } else { a }
}

} // verus!
