//! Brush painting with optional mirror symmetry, used by the drunkard's-walk
//! and diffusion-limited-aggregation generators. Painting only ever turns
//! tiles into floor, and only at in-bounds coordinates.

use vstd::prelude::*;
use crate::grid::Grid;
use crate::tile::TileType;

verus! {

/// How a painted stroke is mirrored about the map center.
#[derive(PartialEq, Eq, Structural, Copy, Clone, Debug)]
pub enum Symmetry {
    NoSymmetry,
    Horizontal,
    Vertical,
    Both,
}

/// A map keeps its dimensions and gains only floor: every tile either keeps
/// its old kind or is now Floor.
pub open spec fn only_floor_added(before: Grid, after: Grid) -> bool {
    &&& after.width == before.width
    &&& after.height == before.height
    &&& after.depth == before.depth
    &&& after.tiles@.len() == before.tiles@.len()
    &&& forall|i: int| 0 <= i < after.tiles@.len()
        ==> after.tiles@[i] == before.tiles@[i] || #[trigger] after.tiles@[i] == TileType::Floor
}

/// The tiles one brush stroke centered at (x, y) covers: the single tile for
/// brush size one, else the square of side `brush_size` clipped to the map's
/// strict interior.
pub open spec fn in_stroke(map: Grid, brush_size: int, x: int, y: int, a: int, b: int) -> bool {
    if brush_size == 1 {
        a == x && b == y
    } else {
        let half = brush_size / 2;
        &&& x - half <= a < x + half
        &&& y - half <= b < y + half
        &&& 1 < a < map.width - 1
        &&& 1 < b < map.height - 1
    }
}

/// The tiles a symmetric paint call turns to floor: the stroke itself, or its
/// mirror images about the map center, as the mode dictates.
pub open spec fn painted(
    map: Grid,
    mode: Symmetry,
    brush_size: int,
    x: int,
    y: int,
    a: int,
    b: int,
) -> bool {
    let cx = map.width as int / 2;
    let cy = map.height as int / 2;
    match mode {
        Symmetry::NoSymmetry => in_stroke(map, brush_size, x, y, a, b),
        Symmetry::Horizontal => {
            if x == cx {
                in_stroke(map, brush_size, x, y, a, b)
            } else {
                let d = if cx >= x { cx - x } else { x - cx };
                in_stroke(map, brush_size, cx + d, y, a, b)
                    || in_stroke(map, brush_size, cx - d, y, a, b)
            }
        },
        Symmetry::Vertical => {
            if y == cy {
                in_stroke(map, brush_size, x, y, a, b)
            } else {
                let d = if cy >= y { cy - y } else { y - cy };
                in_stroke(map, brush_size, x, cy + d, a, b)
                    || in_stroke(map, brush_size, x, cy - d, a, b)
            }
        },
        Symmetry::Both => {
            if x == cx && y == cy {
                in_stroke(map, brush_size, x, y, a, b)
            } else {
                let dx = if cx >= x { cx - x } else { x - cx };
                let dy = if cy >= y { cy - y } else { y - cy };
                ||| in_stroke(map, brush_size, cx + dx, cy + dy, a, b)
                ||| in_stroke(map, brush_size, cx - dx, cy - dy, a, b)
                ||| in_stroke(map, brush_size, cx - dx, cy + dy, a, b)
                ||| in_stroke(map, brush_size, cx + dx, cy - dy, a, b)
            }
        },
    }
}

/// Paint a brush stroke at (x, y), mirrored according to `mode` about the
/// map center: exactly the tiles of the stroke and of its mirror images
/// become floor, and every other tile keeps its kind.
pub fn paint(map: &mut Grid, mode: Symmetry, brush_size: i32, x: i32, y: i32)
    requires
        old(map).inv(),
        1 <= brush_size <= 16,
        1 <= x < old(map).width - 1,
        1 <= y < old(map).height - 1,
    ensures
        final(map).inv(),
        only_floor_added(*old(map), *final(map)),
        forall|a: int, b: int| old(map).in_bounds(a, b)
            ==> final(map).tiles@[old(map).idx(a, b)] == (
                if painted(*old(map), mode, brush_size as int, x as int, y as int, a, b) {
                    TileType::Floor
                } else {
                    old(map).tiles@[old(map).idx(a, b)]
                }),
{
    match mode {
        Symmetry::NoSymmetry => {
            apply_paint(map, brush_size, x, y);
        },
        Symmetry::Horizontal => {
            let center_x = map.width / 2;
            if x == center_x {
                apply_paint(map, brush_size, x, y);
            } else {
                apply_horizontal_symmetry(map, brush_size, center_x, x, y);
            }
        },
        Symmetry::Vertical => {
            let center_y = map.height / 2;
            if y == center_y {
                apply_paint(map, brush_size, x, y);
            } else {
                apply_vertical_symmetry(map, brush_size, center_y, x, y);
            }
        },
        Symmetry::Both => {
            let center_x = map.width / 2;
            let center_y = map.height / 2;
            if y == center_y && x == center_x {
                apply_paint(map, brush_size, x, y);
            } else {
                let dist_x = if center_x >= x { center_x - x } else { x - center_x };
                let dist_y = if center_y >= y { center_y - y } else { y - center_y };
                apply_paint(map, brush_size, center_x + dist_x, center_y + dist_y);
                let ghost m1 = *map;
                apply_paint(map, brush_size, center_x - dist_x, center_y - dist_y);
                let ghost m2 = *map;
                apply_paint(map, brush_size, center_x - dist_x, center_y + dist_y);
                let ghost m3 = *map;
                apply_paint(map, brush_size, center_x + dist_x, center_y - dist_y);
                proof {
                    let bs = brush_size as int;
                    let cx = center_x as int;
                    let cy = center_y as int;
                    let dxv = dist_x as int;
                    let dyv = dist_y as int;
                    let p1 = (|a: int, b: int| in_stroke(
                        *old(map), bs, cx + dxv, cy + dyv, a, b));
                    let p2 = (|a: int, b: int| p1(a, b)
                        || in_stroke(*old(map), bs, cx - dxv, cy - dyv, a, b));
                    let p3 = (|a: int, b: int| p2(a, b)
                        || in_stroke(*old(map), bs, cx - dxv, cy + dyv, a, b));
                    lemma_stroke_extend(*old(map), m1, m2, bs, p1, cx - dxv, cy - dyv);
                    lemma_stroke_extend(*old(map), m2, m3, bs, p2, cx - dxv, cy + dyv);
                    lemma_stroke_extend(*old(map), m3, *map, bs, p3, cx + dxv, cy - dyv);
                    assert forall|a: int, b: int| old(map).in_bounds(a, b)
                        implies map.tiles@[old(map).idx(a, b)] == (
                            if painted(*old(map), mode, bs, x as int, y as int, a, b) {
                                TileType::Floor
                            } else {
                                old(map).tiles@[old(map).idx(a, b)]
                            }) by {
                        assert(painted(*old(map), mode, bs, x as int, y as int, a, b)
                            == (p3(a, b)
                                || in_stroke(*old(map), bs, cx + dxv, cy - dyv, a, b)));
                    }
                }
            }
        },
    }
}

/// Painting a stroke on top of an already painted region composes: a tile is
/// floor afterwards exactly when the region or the new stroke covers it.
proof fn lemma_stroke_extend(
    m0: Grid,
    m1: Grid,
    m2: Grid,
    bs: int,
    p: spec_fn(int, int) -> bool,
    x2: int,
    y2: int,
)
    requires
        m0.inv(),
        m1.width == m0.width,
        m1.height == m0.height,
        m1.tiles@.len() == m0.tiles@.len(),
        forall|a: int, b: int| m0.in_bounds(a, b)
            ==> m1.tiles@[m0.idx(a, b)] == (
                if p(a, b) {
                    TileType::Floor
                } else {
                    m0.tiles@[m0.idx(a, b)]
                }),
        forall|a: int, b: int| m1.in_bounds(a, b)
            ==> m2.tiles@[m1.idx(a, b)] == (
                if in_stroke(m1, bs, x2, y2, a, b) {
                    TileType::Floor
                } else {
                    m1.tiles@[m1.idx(a, b)]
                }),
    ensures
        forall|a: int, b: int| m0.in_bounds(a, b)
            ==> m2.tiles@[m0.idx(a, b)] == (
                if p(a, b) || in_stroke(m0, bs, x2, y2, a, b) {
                    TileType::Floor
                } else {
                    m0.tiles@[m0.idx(a, b)]
                }),
{
    assert forall|a: int, b: int| m0.in_bounds(a, b)
        implies m2.tiles@[m0.idx(a, b)] == (
            if p(a, b) || in_stroke(m0, bs, x2, y2, a, b) {
                TileType::Floor
            } else {
                m0.tiles@[m0.idx(a, b)]
            }) by {
        assert(m1.in_bounds(a, b) == m0.in_bounds(a, b));
        assert(m1.idx(a, b) == m0.idx(a, b));
        assert(in_stroke(m1, bs, x2, y2, a, b) == in_stroke(m0, bs, x2, y2, a, b));
    }
}

/// Paint both mirror images of (x, y) about the vertical axis at `center_x`:
/// exactly the two strokes' tiles become floor.
pub fn apply_horizontal_symmetry(map: &mut Grid, brush_size: i32, center_x: i32, x: i32, y: i32)
    requires
        old(map).inv(),
        1 <= brush_size <= 16,
        center_x == old(map).width / 2,
        1 <= x < old(map).width - 1,
        0 <= y < old(map).height,
    ensures
        final(map).inv(),
        only_floor_added(*old(map), *final(map)),
        ({
            let cx = center_x as int;
            let d = if cx >= x as int { cx - x as int } else { x as int - cx };
            forall|a: int, b: int| old(map).in_bounds(a, b)
                ==> final(map).tiles@[old(map).idx(a, b)] == (
                    if in_stroke(*old(map), brush_size as int, cx + d, y as int, a, b)
                        || in_stroke(*old(map), brush_size as int, cx - d, y as int, a, b) {
                        TileType::Floor
                    } else {
                        old(map).tiles@[old(map).idx(a, b)]
                    })
        }),
{
    let d = if center_x >= x { center_x - x } else { x - center_x };
    apply_paint(map, brush_size, center_x + d, y);
    let ghost mid = *map;
    apply_paint(map, brush_size, center_x - d, y);
    proof {
        lemma_two_strokes(
            *old(map), mid, *map, brush_size as int,
            center_x as int + d as int, y as int,
            center_x as int - d as int, y as int,
        );
    }
}

/// Two consecutive strokes compose: a tile is floor afterwards exactly when
/// either stroke covers it, and every other tile keeps its original kind.
proof fn lemma_two_strokes(
    m0: Grid,
    m1: Grid,
    m2: Grid,
    bs: int,
    x1: int,
    y1: int,
    x2: int,
    y2: int,
)
    requires
        m0.inv(),
        m1.width == m0.width,
        m1.height == m0.height,
        m1.tiles@.len() == m0.tiles@.len(),
        forall|a: int, b: int| m0.in_bounds(a, b)
            ==> m1.tiles@[m0.idx(a, b)] == (
                if in_stroke(m0, bs, x1, y1, a, b) {
                    TileType::Floor
                } else {
                    m0.tiles@[m0.idx(a, b)]
                }),
        forall|a: int, b: int| m1.in_bounds(a, b)
            ==> m2.tiles@[m1.idx(a, b)] == (
                if in_stroke(m1, bs, x2, y2, a, b) {
                    TileType::Floor
                } else {
                    m1.tiles@[m1.idx(a, b)]
                }),
    ensures
        forall|a: int, b: int| m0.in_bounds(a, b)
            ==> m2.tiles@[m0.idx(a, b)] == (
                if in_stroke(m0, bs, x1, y1, a, b) || in_stroke(m0, bs, x2, y2, a, b) {
                    TileType::Floor
                } else {
                    m0.tiles@[m0.idx(a, b)]
                }),
{
    assert forall|a: int, b: int| m0.in_bounds(a, b)
        implies m2.tiles@[m0.idx(a, b)] == (
            if in_stroke(m0, bs, x1, y1, a, b) || in_stroke(m0, bs, x2, y2, a, b) {
                TileType::Floor
            } else {
                m0.tiles@[m0.idx(a, b)]
            }) by {
        assert(m1.in_bounds(a, b) == m0.in_bounds(a, b));
        assert(m1.idx(a, b) == m0.idx(a, b));
        assert(in_stroke(m1, bs, x2, y2, a, b) == in_stroke(m0, bs, x2, y2, a, b));
    }
}

/// Paint both mirror images of (x, y) about the horizontal axis at `center_y`:
/// exactly the two strokes' tiles become floor.
pub fn apply_vertical_symmetry(map: &mut Grid, brush_size: i32, center_y: i32, x: i32, y: i32)
    requires
        old(map).inv(),
        1 <= brush_size <= 16,
        center_y == old(map).height / 2,
        0 <= x < old(map).width,
        1 <= y < old(map).height - 1,
    ensures
        final(map).inv(),
        only_floor_added(*old(map), *final(map)),
        ({
            let cy = center_y as int;
            let d = if cy >= y as int { cy - y as int } else { y as int - cy };
            forall|a: int, b: int| old(map).in_bounds(a, b)
                ==> final(map).tiles@[old(map).idx(a, b)] == (
                    if in_stroke(*old(map), brush_size as int, x as int, cy + d, a, b)
                        || in_stroke(*old(map), brush_size as int, x as int, cy - d, a, b) {
                        TileType::Floor
                    } else {
                        old(map).tiles@[old(map).idx(a, b)]
                    })
        }),
{
    let d = if center_y >= y { center_y - y } else { y - center_y };
    apply_paint(map, brush_size, x, center_y + d);
    let ghost mid = *map;
    apply_paint(map, brush_size, x, center_y - d);
    proof {
        lemma_two_strokes(
            *old(map), mid, *map, brush_size as int,
            x as int, center_y as int + d as int,
            x as int, center_y as int - d as int,
        );
    }
}

/// Paint one brush stroke: a single tile for brush size 1, else a square of
/// side `brush_size` clipped to the map's strict interior. Exactly the
/// stroke's tiles become floor; every other tile keeps its kind.
pub fn apply_paint(map: &mut Grid, brush_size: i32, x: i32, y: i32)
    requires
        old(map).inv(),
        1 <= brush_size <= 16,
        0 <= x < old(map).width,
        0 <= y < old(map).height,
    ensures
        final(map).inv(),
        only_floor_added(*old(map), *final(map)),
        forall|a: int, b: int| old(map).in_bounds(a, b)
            ==> final(map).tiles@[old(map).idx(a, b)] == (
                if in_stroke(*old(map), brush_size as int, x as int, y as int, a, b) {
                    TileType::Floor
                } else {
                    old(map).tiles@[old(map).idx(a, b)]
                }),
{
    if brush_size == 1 {
        map.set_floor(x, y);
        proof {
            old(map).lemma_idx_bounds(x as int, y as int);
            assert forall|a: int, b: int|
                old(map).in_bounds(a, b) && (a != x as int || b != y as int)
                implies map.tiles@[old(map).idx(a, b)]
                    == old(map).tiles@[old(map).idx(a, b)] by {
                old(map).lemma_idx_bounds(a, b);
                if old(map).idx(a, b) == old(map).idx(x as int, y as int) {
                    old(map).lemma_idx_injective(a, b, x as int, y as int);
                }
            }
        }
    } else {
        let half_brush_size = brush_size / 2;
        let y_start = y - half_brush_size;
        let y_end = y + half_brush_size;
        let x_start = x - half_brush_size;
        let x_end = x + half_brush_size;
        let mut brush_y = y_start;
        while brush_y < y_end
            invariant
                old(map).inv(),
                map.inv(),
                only_floor_added(*old(map), *map),
                2 <= brush_size <= 16,
                half_brush_size == brush_size / 2,
                y_start == y - half_brush_size,
                y_end == y + half_brush_size,
                x_start == x - half_brush_size,
                x_end == x + half_brush_size,
                y_start <= brush_y <= y_end,
                x_start <= x_end,
                -16 <= y_start,
                y_end <= old(map).height + 16,
                -16 <= x_start,
                x_end <= old(map).width + 16,
                forall|a: int, b: int| old(map).in_bounds(a, b)
                    ==> map.tiles@[old(map).idx(a, b)] == (
                        if x_start <= a < x_end && y_start <= b < brush_y
                            && 1 < a < old(map).width - 1 && 1 < b < old(map).height - 1 {
                            TileType::Floor
                        } else {
                            old(map).tiles@[old(map).idx(a, b)]
                        }),
            decreases y_end - brush_y,
        {
            let mut brush_x = x_start;
            while brush_x < x_end
                invariant
                    old(map).inv(),
                    map.inv(),
                    only_floor_added(*old(map), *map),
                    2 <= brush_size <= 16,
                    half_brush_size == brush_size / 2,
                    y_start == y - half_brush_size,
                    y_end == y + half_brush_size,
                    x_start == x - half_brush_size,
                    x_end == x + half_brush_size,
                    x_start <= brush_x <= x_end,
                    -16 <= x_start,
                    x_end <= old(map).width + 16,
                    -16 <= y_start,
                    y_end <= old(map).height + 16,
                    y_start <= brush_y < y_end,
                    forall|a: int, b: int| old(map).in_bounds(a, b)
                        ==> map.tiles@[old(map).idx(a, b)] == (
                            if x_start <= a < x_end
                                && 1 < a < old(map).width - 1 && 1 < b < old(map).height - 1
                                && (y_start <= b < brush_y
                                    || (b == brush_y && x_start <= a < brush_x)) {
                                TileType::Floor
                            } else {
                                old(map).tiles@[old(map).idx(a, b)]
                            }),
                decreases x_end - brush_x,
            {
                if brush_x > 1 && brush_x < map.width - 1 && brush_y > 1 && brush_y < map.height - 1 {
                    let ghost pre = *map;
                    map.set_floor(brush_x, brush_y);
                    proof {
                        old(map).lemma_idx_bounds(brush_x as int, brush_y as int);
                        assert(map.tiles@[old(map).idx(brush_x as int, brush_y as int)]
                            == TileType::Floor);
                        assert forall|a: int, b: int|
                            old(map).in_bounds(a, b)
                                && (a != brush_x as int || b != brush_y as int)
                            implies map.tiles@[old(map).idx(a, b)]
                                == pre.tiles@[old(map).idx(a, b)] by {
                            old(map).lemma_idx_bounds(a, b);
                            if old(map).idx(a, b)
                                == old(map).idx(brush_x as int, brush_y as int) {
                                old(map).lemma_idx_injective(
                                    a, b, brush_x as int, brush_y as int);
                            }
                        }
                    }
                }
                brush_x = brush_x + 1;
            }
            brush_y = brush_y + 1;
        }
    }
}

} // verus!
