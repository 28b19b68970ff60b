//! Wave-function-collapse pattern extraction and constraint building: slice a
//! finished map into fixed-size chunks (optionally with flipped variants),
//! deduplicate them, and compute each pattern's exit masks and pairwise
//! directional compatibility.

use vstd::prelude::*;
use crate::grid::Grid;
use crate::tile::TileType;
use crate::map_chunk::{MapChunk, chunk_idx, chunk_wf, chunk_inv, chunk_edges_ok, constraints_ok};
use crate::map_chunk::{exit_at, edge_has_exit, chunk_has_exits, chunk_fits, opposite};
use crate::map_chunk::tile_index_in_chunk;

verus! {

/// Positions earlier in row-major order have smaller flat indices.
proof fn lemma_chunk_idx_lt(cs: int, x1: int, y1: int, x2: int, y2: int)
    requires
        0 <= x1 < cs,
        0 <= x2 < cs,
        0 <= y1,
        0 <= y2,
        y1 < y2 || (y1 == y2 && x1 < x2),
    ensures
        0 <= crate::map_chunk::chunk_idx(cs, x1, y1) < crate::map_chunk::chunk_idx(cs, x2, y2),
{
    assert(y1 * cs + x1 < y2 * cs + x2) by (nonlinear_arith)
        requires 0 <= x1 < cs && 0 <= x2 < cs && 0 <= y1 && 0 <= y2
            && (y1 < y2 || (y1 == y2 && x1 < x2))
    ;
    assert(y1 * cs + x1 >= 0) by (nonlinear_arith)
        requires 0 <= x1 && 0 <= y1 && cs > 0
    ;
}

/// `p` is exactly the chunk window of the map at chunk coordinates (cx, cy),
/// mirrored about the axes that `fx` and `fy` select.
pub open spec fn window_pattern(
    map: Grid,
    cs: int,
    cx: int,
    cy: int,
    fx: bool,
    fy: bool,
    p: Seq<TileType>,
) -> bool {
    &&& chunk_wf(p, cs)
    &&& forall|dx: int, dy: int| 0 <= dx < cs && 0 <= dy < cs
        ==> #[trigger] p[chunk_idx(cs, dx, dy)] == map.tiles@[map.idx(
            if fx { cx * cs + cs - 1 - dx } else { cx * cs + dx },
            if fy { cy * cs + cs - 1 - dy } else { cy * cs + dy },
        )]
}

/// `p` is some chunk window of the map, in an orientation the extraction was
/// asked for.
pub open spec fn is_map_pattern(map: Grid, cs: int, flips: bool, p: Seq<TileType>) -> bool {
    exists|cx: int, cy: int, fx: bool, fy: bool|
        0 <= cx < map.width as int / cs && 0 <= cy < map.height as int / cs
            && (flips || (!fx && !fy))
            && #[trigger] window_pattern(map, cs, cx, cy, fx, fy, p)
}

/// Without deduplication the extraction emits windows in row-major chunk
/// order, the orientations of one window adjacent: entry `(cy*cw + cx) * per`
/// is the unflipped window at (cx, cy), followed by its horizontal, vertical
/// and double flips when flipping is on.
pub open spec fn ordered_window(
    r: Seq<Vec<TileType>>,
    map: Grid,
    cs: int,
    flips: bool,
    cx: int,
    cy: int,
) -> bool {
    let cw = map.width as int / cs;
    let per: int = if flips { 4 } else { 1 };
    let base = (cy * cw + cx) * per;
    &&& window_pattern(map, cs, cx, cy, false, false, r[base]@)
    &&& (flips ==> window_pattern(map, cs, cx, cy, true, false, r[base + 1]@)
        && window_pattern(map, cs, cx, cy, false, true, r[base + 2]@)
        && window_pattern(map, cs, cx, cy, true, true, r[base + 3]@))
}

/// Some entry of `r` is the chunk window at (cx, cy) in the given orientation.
pub open spec fn has_window_pattern(
    r: Seq<Vec<TileType>>,
    map: Grid,
    cs: int,
    cx: int,
    cy: int,
    fx: bool,
    fy: bool,
) -> bool {
    exists|k: int| 0 <= k < r.len()
        && window_pattern(map, cs, cx, cy, fx, fy, (#[trigger] r[k])@)
}

/// Copy one chunk-sized window of the map, optionally mirrored about either
/// axis, into a fresh pattern.
pub fn slice_pattern(
    map: &Grid,
    start_x: i32,
    start_y: i32,
    cs: i32,
    flip_x: bool,
    flip_y: bool,
) -> (r: Vec<TileType>)
    requires
        map.inv(),
        1 <= cs <= 64,
        0 <= start_x,
        start_x + cs <= map.width,
        0 <= start_y,
        start_y + cs <= map.height,
    ensures
        chunk_wf(r@, cs as int),
        forall|dx: int, dy: int| 0 <= dx < cs && 0 <= dy < cs
            ==> #[trigger] r@[chunk_idx(cs as int, dx, dy)] == map.tiles@[map.idx(
                if flip_x { start_x + cs - 1 - dx } else { start_x + dx },
                if flip_y { start_y + cs - 1 - dy } else { start_y + dy },
            )],
{
    let mut r: Vec<TileType> = Vec::new();
    let mut dy: i32 = 0;
    while dy < cs
        invariant
            map.inv(),
            1 <= cs <= 64,
            0 <= start_x,
            start_x + cs <= map.width,
            0 <= start_y,
            start_y + cs <= map.height,
            0 <= dy <= cs,
            r@.len() == dy * cs,
            forall|dx2: int, dy2: int| 0 <= dx2 < cs && 0 <= dy2 < dy
                ==> #[trigger] r@[chunk_idx(cs as int, dx2, dy2)] == map.tiles@[map.idx(
                    if flip_x { start_x + cs - 1 - dx2 } else { start_x + dx2 },
                    if flip_y { start_y + cs - 1 - dy2 } else { start_y + dy2 },
                )],
        decreases cs - dy,
    {
        let mut dx: i32 = 0;
        while dx < cs
            invariant
                map.inv(),
                1 <= cs <= 64,
                0 <= start_x,
                start_x + cs <= map.width,
                0 <= start_y,
                start_y + cs <= map.height,
                0 <= dy < cs,
                0 <= dx <= cs,
                r@.len() == dy * cs + dx,
                forall|dx2: int, dy2: int| 0 <= dx2 < cs && (0 <= dy2 < dy
                    || (dy2 == dy && dx2 < dx))
                    ==> #[trigger] r@[chunk_idx(cs as int, dx2, dy2)] == map.tiles@[map.idx(
                        if flip_x { start_x + cs - 1 - dx2 } else { start_x + dx2 },
                        if flip_y { start_y + cs - 1 - dy2 } else { start_y + dy2 },
                    )],
            decreases cs - dx,
        {
            let sx = if flip_x { start_x + cs - 1 - dx } else { start_x + dx };
            let sy = if flip_y { start_y + cs - 1 - dy } else { start_y + dy };
            let t = map.get_tile(sx, sy);
            r.push(t);
            proof {
                assert(chunk_idx(cs as int, dx as int, dy as int) == r@.len() - 1);
                assert forall|dx2: int, dy2: int| 0 <= dx2 < cs && (0 <= dy2 < dy as int
                    || (dy2 == dy as int && dx2 < dx + 1))
                    implies #[trigger] r@[chunk_idx(cs as int, dx2, dy2)] == map.tiles@[map.idx(
                        if flip_x { start_x + cs - 1 - dx2 } else { start_x + dx2 },
                        if flip_y { start_y + cs - 1 - dy2 } else { start_y + dy2 },
                    )] by {
                    if dy2 < dy as int || dx2 < dx as int {
                        lemma_chunk_idx_lt(cs as int, dx2, dy2, dx as int, dy as int);
                    }
                }
            }
            dx = dx + 1;
        }
        proof {
            assert((dy + 1) * (cs as int) == dy * (cs as int) + cs) by (nonlinear_arith);
        }
        dy = dy + 1;
    }
    proof {
        assert(r@.len() == cs * cs);
    }
    r
}

/// The chunk window mirrored about the vertical axis.
pub fn flip_horizontally(map: &Grid, start_x: i32, start_y: i32, cs: i32) -> (r: Vec<TileType>)
    requires
        map.inv(),
        1 <= cs <= 64,
        0 <= start_x,
        start_x + cs <= map.width,
        0 <= start_y,
        start_y + cs <= map.height,
    ensures
        chunk_wf(r@, cs as int),
        forall|dx: int, dy: int| 0 <= dx < cs && 0 <= dy < cs
            ==> #[trigger] r@[chunk_idx(cs as int, dx, dy)] == map.tiles@[map.idx(
                start_x + cs - 1 - dx,
                start_y + dy,
            )],
{
    slice_pattern(map, start_x, start_y, cs, true, false)
}

/// The chunk window mirrored about the horizontal axis.
pub fn flip_vertically(map: &Grid, start_x: i32, start_y: i32, cs: i32) -> (r: Vec<TileType>)
    requires
        map.inv(),
        1 <= cs <= 64,
        0 <= start_x,
        start_x + cs <= map.width,
        0 <= start_y,
        start_y + cs <= map.height,
    ensures
        chunk_wf(r@, cs as int),
        forall|dx: int, dy: int| 0 <= dx < cs && 0 <= dy < cs
            ==> #[trigger] r@[chunk_idx(cs as int, dx, dy)] == map.tiles@[map.idx(
                start_x + dx,
                start_y + cs - 1 - dy,
            )],
{
    slice_pattern(map, start_x, start_y, cs, false, true)
}

/// The chunk window mirrored about both axes.
pub fn flip_horizontally_and_vertically(
    map: &Grid,
    start_x: i32,
    start_y: i32,
    cs: i32,
) -> (r: Vec<TileType>)
    requires
        map.inv(),
        1 <= cs <= 64,
        0 <= start_x,
        start_x + cs <= map.width,
        0 <= start_y,
        start_y + cs <= map.height,
    ensures
        chunk_wf(r@, cs as int),
        forall|dx: int, dy: int| 0 <= dx < cs && 0 <= dy < cs
            ==> #[trigger] r@[chunk_idx(cs as int, dx, dy)] == map.tiles@[map.idx(
                start_x + cs - 1 - dx,
                start_y + cs - 1 - dy,
            )],
{
    slice_pattern(map, start_x, start_y, cs, true, true)
}

/// Whether two patterns hold exactly the same tiles.
pub fn patterns_equal(a: &Vec<TileType>, b: &Vec<TileType>) -> (r: bool)
    ensures
        r == (a@ =~= b@),
{
    if a.len() != b.len() {
        proof {
            assert(a@.len() != b@.len());
        }
        return false;
    }
    let n = a.len();
    let mut i: usize = 0;
    while i < n
        invariant
            n == a@.len(),
            n == b@.len(),
            i <= n,
            forall|k: int| 0 <= k < i ==> a@[k] == b@[k],
        decreases n - i,
    {
        if a[i] != b[i] {
            return false;
        }
        i = i + 1;
    }
    true
}

/// Slice the map into non-overlapping chunk patterns, optionally adding the
/// three mirrored variants of each slice, and optionally collapsing identical
/// patterns (first occurrence kept). Without deduplication the count is
/// exactly the number of chunk windows times the number of orientations.
/// The result holds exactly the chunk windows of the map: every pattern is a
/// window in a requested orientation and every such window appears. Rows and
/// columns past the last full chunk window are never read; callers that need
/// every tile covered slice a map whose dimensions are multiples of the
/// chunk size.
pub fn build_patterns(
    map: &Grid,
    chunk_size: i32,
    include_flipping: bool,
    dedupe: bool,
) -> (r: Vec<Vec<TileType>>)
    requires
        map.inv(),
        1 <= chunk_size <= 64,
        chunk_size <= map.width,
        chunk_size <= map.height,
    ensures
        forall|k: int| 0 <= k < r@.len() ==> chunk_wf((#[trigger] r@[k])@, chunk_size as int),
        !dedupe ==> r@.len() == (map.width as int / chunk_size as int)
            * (map.height as int / chunk_size as int) * (if include_flipping { 4int } else { 1 }),
        dedupe ==> forall|j: int, k: int| 0 <= j < k < r@.len() ==> !((r@[j])@ =~= (r@[k])@),
        1 <= r@.len(),
        r@.len() <= (map.width as int / chunk_size as int)
            * (map.height as int / chunk_size as int) * (if include_flipping { 4int } else { 1 }),
        forall|k: int| 0 <= k < r@.len()
            ==> is_map_pattern(*map, chunk_size as int, include_flipping, (#[trigger] r@[k])@),
        forall|cx: int, cy: int, fx: bool, fy: bool|
            0 <= cx < map.width as int / chunk_size as int
                && 0 <= cy < map.height as int / chunk_size as int
                && (include_flipping || (!fx && !fy))
            ==> #[trigger] has_window_pattern(r@, *map, chunk_size as int, cx, cy, fx, fy),
        !dedupe ==> forall|cx: int, cy: int|
            0 <= cx < map.width as int / chunk_size as int
                && 0 <= cy < map.height as int / chunk_size as int
            ==> #[trigger] ordered_window(
                r@, *map, chunk_size as int, include_flipping, cx, cy),
{
    let chunks_x = map.width / chunk_size;
    let chunks_y = map.height / chunk_size;
    proof {
        assert(map.width as int / chunk_size as int >= 1
            && map.height as int / chunk_size as int >= 1
            && map.width as int / chunk_size as int <= 512
            && map.height as int / chunk_size as int <= 512) by (nonlinear_arith)
            requires
                1 <= chunk_size <= 64,
                chunk_size <= map.width,
                chunk_size <= map.height,
                map.width <= 512,
                map.height <= 512,
        ;
    }
    let per_chunk: i32 = if include_flipping { 4 } else { 1 };
    let mut patterns: Vec<Vec<TileType>> = Vec::new();

    let mut cy: i32 = 0;
    while cy < chunks_y
        invariant
            map.inv(),
            1 <= chunk_size <= 64,
            chunks_x == map.width / chunk_size,
            chunks_y == map.height / chunk_size,
            1 <= chunks_x <= 512,
            1 <= chunks_y <= 512,
            chunk_size <= map.width,
            chunk_size <= map.height,
            per_chunk == if include_flipping { 4int } else { 1 },
            0 <= cy <= chunks_y,
            patterns@.len() == cy * chunks_x * per_chunk,
            forall|k: int| 0 <= k < patterns@.len()
                ==> chunk_wf((#[trigger] patterns@[k])@, chunk_size as int),
            forall|k: int| 0 <= k < patterns@.len()
                ==> is_map_pattern(*map, chunk_size as int, include_flipping,
                    (#[trigger] patterns@[k])@),
            forall|cx2: int, cy2: int, fx: bool, fy: bool|
                0 <= cx2 < chunks_x as int && 0 <= cy2 < cy as int
                    && (include_flipping || (!fx && !fy))
                ==> #[trigger] has_window_pattern(
                    patterns@, *map, chunk_size as int, cx2, cy2, fx, fy),
            forall|cx2: int, cy2: int| 0 <= cx2 < chunks_x as int && 0 <= cy2 < cy as int
                ==> #[trigger] ordered_window(
                    patterns@, *map, chunk_size as int, include_flipping, cx2, cy2),
        decreases chunks_y - cy,
    {
        let mut cx: i32 = 0;
        while cx < chunks_x
            invariant
                map.inv(),
                1 <= chunk_size <= 64,
                chunks_x == map.width / chunk_size,
                chunks_y == map.height / chunk_size,
                1 <= chunks_x <= 512,
                1 <= chunks_y <= 512,
                chunk_size <= map.width,
                chunk_size <= map.height,
                per_chunk == if include_flipping { 4int } else { 1 },
                0 <= cy < chunks_y,
                0 <= cx <= chunks_x,
                patterns@.len() == cy * chunks_x * per_chunk + cx * per_chunk,
                forall|k: int| 0 <= k < patterns@.len()
                    ==> chunk_wf((#[trigger] patterns@[k])@, chunk_size as int),
                forall|k: int| 0 <= k < patterns@.len()
                    ==> is_map_pattern(*map, chunk_size as int, include_flipping,
                        (#[trigger] patterns@[k])@),
                forall|cx2: int, cy2: int, fx: bool, fy: bool|
                    0 <= cx2 < chunks_x as int && (0 <= cy2 < cy as int
                        || (cy2 == cy as int && 0 <= cx2 < cx as int))
                        && (include_flipping || (!fx && !fy))
                    ==> #[trigger] has_window_pattern(
                        patterns@, *map, chunk_size as int, cx2, cy2, fx, fy),
                forall|cx2: int, cy2: int| 0 <= cx2 < chunks_x as int
                    && (0 <= cy2 < cy as int || (cy2 == cy as int && 0 <= cx2 < cx as int))
                    ==> #[trigger] ordered_window(
                        patterns@, *map, chunk_size as int, include_flipping, cx2, cy2),
            decreases chunks_x - cx,
        {
            proof {
                assert(cx * chunk_size >= 0 && (cx + 1) * chunk_size
                    <= (map.width / chunk_size) * chunk_size
                    && (map.width / chunk_size) * chunk_size <= map.width
                    && (cx + 1) * chunk_size == cx * chunk_size + chunk_size)
                    by (nonlinear_arith)
                    requires
                        0 <= cx < map.width as int / chunk_size as int,
                        1 <= chunk_size <= 64,
                        chunk_size <= map.width,
                ;
                assert(cy * chunk_size >= 0 && (cy + 1) * chunk_size
                    <= (map.height / chunk_size) * chunk_size
                    && (map.height / chunk_size) * chunk_size <= map.height
                    && (cy + 1) * chunk_size == cy * chunk_size + chunk_size)
                    by (nonlinear_arith)
                    requires
                        0 <= cy < map.height as int / chunk_size as int,
                        1 <= chunk_size <= 64,
                        chunk_size <= map.height,
                ;
            }
            let start_x = cx * chunk_size;
            let start_y = cy * chunk_size;
            let ghost ptop = patterns@;
            let ghost len0 = patterns@.len();
            let base = slice_pattern(map, start_x, start_y, chunk_size, false, false);
            patterns.push(base);
            if include_flipping {
                let hp = flip_horizontally(map, start_x, start_y, chunk_size);
                patterns.push(hp);
                let vp = flip_vertically(map, start_x, start_y, chunk_size);
                patterns.push(vp);
                let bp = flip_horizontally_and_vertically(map, start_x, start_y, chunk_size);
                patterns.push(bp);
            }
            proof {
                let csi = chunk_size as int;
                assert(start_x as int == cx as int * csi && start_y as int == cy as int * csi);
                // the pushed entries are the window at (cx, cy), one per
                // requested orientation
                assert(window_pattern(*map, csi, cx as int, cy as int, false, false,
                    (patterns@[len0 as int])@));
                if include_flipping {
                    assert(window_pattern(*map, csi, cx as int, cy as int, true, false,
                        (patterns@[len0 as int + 1])@));
                    assert(window_pattern(*map, csi, cx as int, cy as int, false, true,
                        (patterns@[len0 as int + 2])@));
                    assert(window_pattern(*map, csi, cx as int, cy as int, true, true,
                        (patterns@[len0 as int + 3])@));
                }
                assert forall|k: int| 0 <= k < patterns@.len()
                    implies is_map_pattern(*map, csi, include_flipping,
                        (#[trigger] patterns@[k])@) by {
                    if k >= len0 as int {
                        if k == len0 as int {
                            assert(window_pattern(*map, csi, cx as int, cy as int,
                                false, false, (patterns@[k])@));
                        } else if k == len0 as int + 1 {
                            assert(window_pattern(*map, csi, cx as int, cy as int,
                                true, false, (patterns@[k])@));
                        } else if k == len0 as int + 2 {
                            assert(window_pattern(*map, csi, cx as int, cy as int,
                                false, true, (patterns@[k])@));
                        } else {
                            assert(window_pattern(*map, csi, cx as int, cy as int,
                                true, true, (patterns@[k])@));
                        }
                    } else {
                        assert(patterns@[k] == ptop[k]);
                    }
                }
                assert forall|cx2: int, cy2: int| 0 <= cx2 < chunks_x as int
                    && (0 <= cy2 < cy as int || (cy2 == cy as int && 0 <= cx2 < cx as int + 1))
                    implies ordered_window(
                        patterns@, *map, csi, include_flipping, cx2, cy2) by {
                    let cw = map.width as int / csi;
                    let per = if include_flipping { 4int } else { 1 };
                    let base = (cy2 * cw + cx2) * per;
                    if cx2 == cx as int && cy2 == cy as int {
                        assert(base == len0) by (nonlinear_arith)
                            requires
                                base == (cy2 * cw + cx2) * per,
                                len0 == cy as int * (chunks_x as int) * per
                                    + cx as int * per,
                                cw == chunks_x as int,
                                cx2 == cx as int,
                                cy2 == cy as int,
                        ;
                    } else {
                        assert(ordered_window(ptop, *map, csi, include_flipping, cx2, cy2));
                        assert(0 <= base && base + per <= ptop.len())
                            by (nonlinear_arith)
                            requires
                                base == (cy2 * cw + cx2) * per,
                                ptop.len() == cy as int * cw * per + cx as int * per,
                                0 <= cx2 < cw,
                                0 <= cy2,
                                0 <= cx as int,
                                0 <= cy as int,
                                cw >= 1,
                                per >= 1,
                                cy2 < cy as int || (cy2 == cy as int && cx2 < cx as int),
                        ;
                        assert(patterns@[base] == ptop[base]);
                        if include_flipping {
                            assert(patterns@[base + 1] == ptop[base + 1]);
                            assert(patterns@[base + 2] == ptop[base + 2]);
                            assert(patterns@[base + 3] == ptop[base + 3]);
                        }
                    }
                }
                assert forall|cx2: int, cy2: int, fx: bool, fy: bool|
                    0 <= cx2 < chunks_x as int && (0 <= cy2 < cy as int
                        || (cy2 == cy as int && 0 <= cx2 < cx as int + 1))
                        && (include_flipping || (!fx && !fy))
                    implies has_window_pattern(
                        patterns@, *map, csi, cx2, cy2, fx, fy) by {
                    if cx2 == cx as int && cy2 == cy as int {
                        if !fx && !fy {
                            assert(window_pattern(*map, csi, cx2, cy2, fx, fy,
                                (patterns@[len0 as int])@));
                        } else if fx && !fy {
                            assert(window_pattern(*map, csi, cx2, cy2, fx, fy,
                                (patterns@[len0 as int + 1])@));
                        } else if !fx && fy {
                            assert(window_pattern(*map, csi, cx2, cy2, fx, fy,
                                (patterns@[len0 as int + 2])@));
                        } else {
                            assert(window_pattern(*map, csi, cx2, cy2, fx, fy,
                                (patterns@[len0 as int + 3])@));
                        }
                    } else {
                        assert(has_window_pattern(ptop, *map, csi, cx2, cy2, fx, fy));
                        let k = choose|k: int| 0 <= k < ptop.len()
                            && window_pattern(*map, csi, cx2, cy2, fx, fy, (ptop[k])@);
                        assert(patterns@[k] == ptop[k]);
                        assert(window_pattern(*map, csi, cx2, cy2, fx, fy,
                            (patterns@[k])@));
                    }
                }
            }
            cx = cx + 1;
        }
        proof {
            assert((cy + 1) * (chunks_x as int) * (per_chunk as int)
                == cy * (chunks_x as int) * (per_chunk as int)
                    + (chunks_x as int) * (per_chunk as int)) by (nonlinear_arith);
        }
        cy = cy + 1;
    }

    proof {
        assert((map.height as int / chunk_size as int) * (map.width as int / chunk_size as int)
            * (if include_flipping { 4int } else { 1 })
            == (map.width as int / chunk_size as int)
                * (map.height as int / chunk_size as int)
                * (if include_flipping { 4int } else { 1 })) by (nonlinear_arith);
        assert(patterns@.len() >= 1) by (nonlinear_arith)
            requires
                patterns@.len() == (map.height as int / chunk_size as int)
                    * (map.width as int / chunk_size as int)
                    * (if include_flipping { 4int } else { 1 }),
                map.height as int / chunk_size as int >= 1,
                map.width as int / chunk_size as int >= 1,
        ;
    }
    if dedupe {
        let mut unique: Vec<Vec<TileType>> = Vec::new();
        let n = patterns.len();
        let mut i: usize = 0;
        while i < n
            invariant
                i <= n,
                n == patterns@.len(),
                forall|k: int| 0 <= k < patterns@.len()
                    ==> chunk_wf((#[trigger] patterns@[k])@, chunk_size as int),
                forall|k: int| 0 <= k < patterns@.len()
                    ==> is_map_pattern(*map, chunk_size as int, include_flipping,
                        (#[trigger] patterns@[k])@),
                forall|k: int| 0 <= k < unique@.len()
                    ==> chunk_wf((#[trigger] unique@[k])@, chunk_size as int),
                forall|k: int| 0 <= k < unique@.len()
                    ==> is_map_pattern(*map, chunk_size as int, include_flipping,
                        (#[trigger] unique@[k])@),
                forall|j: int, k: int| 0 <= j < k < unique@.len()
                    ==> !((unique@[j])@ =~= (unique@[k])@),
                forall|j: int| 0 <= j < i ==> exists|k: int| 0 <= k < unique@.len()
                    && ((#[trigger] patterns@[j])@ =~= (unique@[k])@),
                unique@.len() <= i,
                i > 0 ==> unique@.len() >= 1,
            decreases n - i,
        {
            let mut seen = false;
            let mut k: usize = 0;
            while k < unique.len()
                invariant
                    k <= unique@.len(),
                    i < n,
                    n == patterns@.len(),
                    seen ==> unique@.len() >= 1,
                    seen ==> exists|k2: int| 0 <= k2 < unique@.len()
                        && ((#[trigger] unique@[k2])@ =~= (patterns@[i as int])@),
                    !seen ==> forall|j: int| 0 <= j < k
                        ==> !((#[trigger] unique@[j])@ =~= (patterns@[i as int])@),
                decreases unique@.len() - k,
            {
                if patterns_equal(&unique[k], &patterns[i]) {
                    seen = true;
                }
                k = k + 1;
            }
            let ghost upre = unique@;
            if !seen {
                let p = patterns[i].clone();
                proof {
                    assert(p@ =~= (patterns@[i as int])@);
                }
                unique.push(p);
                proof {
                    assert((unique@[unique@.len() - 1])@ =~= (patterns@[i as int])@);
                }
            }
            proof {
                // the current pattern now has a kept twin, and earlier
                // patterns keep theirs
                assert(exists|k2: int| 0 <= k2 < unique@.len()
                    && ((unique@[k2])@ =~= (patterns@[i as int])@));
                assert forall|j: int| 0 <= j < i as int + 1
                    implies exists|k2: int| 0 <= k2 < unique@.len()
                        && ((#[trigger] patterns@[j])@ =~= (unique@[k2])@) by {
                    if j == i as int {
                        let k2 = choose|k2: int| 0 <= k2 < unique@.len()
                            && ((unique@[k2])@ =~= (patterns@[i as int])@);
                        assert((unique@[k2])@ =~= (patterns@[j])@);
                        assert((patterns@[j])@ == (unique@[k2])@);
                        assert((patterns@[j])@ =~= (unique@[k2])@);
                    } else {
                        let k2 = choose|k2: int| 0 <= k2 < upre.len()
                            && ((patterns@[j])@ =~= (upre[k2])@);
                        assert(unique@[k2] == upre[k2]);
                        assert((patterns@[j])@ =~= (unique@[k2])@);
                    }
                }
            }
            i = i + 1;
        }
        proof {
            // every chunk window still has a representative among the kept
            // patterns: deduplication only drops later equal copies
            assert forall|cx2: int, cy2: int, fx: bool, fy: bool|
                0 <= cx2 < map.width as int / chunk_size as int
                    && 0 <= cy2 < map.height as int / chunk_size as int
                    && (include_flipping || (!fx && !fy))
                implies has_window_pattern(
                    unique@, *map, chunk_size as int, cx2, cy2, fx, fy) by {
                assert(has_window_pattern(
                    patterns@, *map, chunk_size as int, cx2, cy2, fx, fy));
                let j = choose|j: int| 0 <= j < patterns@.len()
                    && window_pattern(*map, chunk_size as int, cx2, cy2, fx, fy,
                        (patterns@[j])@);
                let k2 = choose|k2: int| 0 <= k2 < unique@.len()
                    && ((patterns@[j])@ =~= (unique@[k2])@);
                assert(window_pattern(*map, chunk_size as int, cx2, cy2, fx, fy,
                    (unique@[k2])@));
            }
        }
        unique
    } else {
        patterns
    }
}

/// The exit mask of one edge of a pattern.
fn edge_exit_flags(p: &Vec<TileType>, cs: i32, d: i32) -> (r: Vec<bool>)
    requires
        1 <= cs <= 64,
        chunk_wf(p@, cs as int),
        0 <= d < 4,
    ensures
        r@.len() == cs,
        forall|pos: int| 0 <= pos < cs
            ==> #[trigger] r@[pos] == exit_at(p@, cs as int, d as int, pos),
{
    let mut r: Vec<bool> = Vec::new();
    let mut pos: i32 = 0;
    while pos < cs
        invariant
            1 <= cs <= 64,
            chunk_wf(p@, cs as int),
            0 <= d < 4,
            0 <= pos <= cs,
            r@.len() == pos,
            forall|q: int| 0 <= q < pos ==> #[trigger] r@[q] == exit_at(p@, cs as int, d as int, q),
        decreases cs - pos,
    {
        let i = if d == 0 {
            tile_index_in_chunk(cs, pos, 0)
        } else if d == 1 {
            tile_index_in_chunk(cs, pos, cs - 1)
        } else if d == 2 {
            tile_index_in_chunk(cs, 0, pos)
        } else {
            tile_index_in_chunk(cs, cs - 1, pos)
        };
        let is_floor = match p[i] {
            TileType::Floor => true,
            _ => false,
        };
        r.push(is_floor);
        pos = pos + 1;
    }
    r
}

/// Whether an exit mask has any exit set.
fn flags_have_exit(flags: &Vec<bool>) -> (r: bool)
    ensures
        r == exists|pos: int| 0 <= pos < flags@.len() && flags@[pos],
{
    let n = flags.len();
    let mut pos: usize = 0;
    while pos < n
        invariant
            n == flags@.len(),
            pos <= n,
            forall|q: int| 0 <= q < pos ==> !flags@[q],
        decreases n - pos,
    {
        if flags[pos] {
            proof {
                assert(flags@[pos as int]);
            }
            return true;
        }
        pos = pos + 1;
    }
    false
}

/// Whether chunk `a` accepts chunk `b` in direction `d`, decided from their
/// exit masks exactly as [`chunk_fits`] states it.
fn fits_exec(a: &MapChunk, b: &MapChunk, cs: i32, d: i32) -> (r: bool)
    requires
        1 <= cs <= 64,
        0 <= d < 4,
        chunk_edges_ok(*a, cs as int),
        chunk_edges_ok(*b, cs as int),
    ensures
        r == chunk_fits(a.pattern@, b.pattern@, cs as int, d as int),
{
    if !a.has_exits || !b.has_exits {
        return true;
    }
    let du = d as usize;
    let opp: usize = if d == 0 { 1 } else if d == 1 { 0 } else if d == 2 { 3 } else { 2 };
    proof {
        assert(opp as int == opposite(d as int));
    }
    let mut shared = false;
    let mut a_any = false;
    let mut pos: usize = 0;
    let csu = cs as usize;
    while pos < csu
        invariant
            1 <= cs <= 64,
            csu == cs as usize,
            0 <= d < 4,
            du == d as usize,
            opp as int == opposite(d as int),
            opp < 4,
            chunk_edges_ok(*a, cs as int),
            chunk_edges_ok(*b, cs as int),
            pos <= csu,
            shared == exists|q: int| 0 <= q < pos && exit_at(a.pattern@, cs as int, d as int, q)
                && exit_at(b.pattern@, cs as int, opposite(d as int), q),
            a_any == exists|q: int| 0 <= q < pos && exit_at(a.pattern@, cs as int, d as int, q),
        decreases csu - pos,
    {
        let a_exit = a.exits[du][pos];
        let b_exit = b.exits[opp][pos];
        if a_exit {
            a_any = true;
        }
        if a_exit && b_exit {
            shared = true;
        }
        proof {
            if shared {
                assert(exists|q: int| 0 <= q < pos + 1
                    && exit_at(a.pattern@, cs as int, d as int, q)
                    && exit_at(b.pattern@, cs as int, opposite(d as int), q)) by {
                    if exit_at(a.pattern@, cs as int, d as int, pos as int)
                        && exit_at(b.pattern@, cs as int, opposite(d as int), pos as int) {
                        assert((pos as int) < pos + 1);
                    } else {
                        let q = choose|q: int| 0 <= q < pos
                            && exit_at(a.pattern@, cs as int, d as int, q)
                            && exit_at(b.pattern@, cs as int, opposite(d as int), q);
                        assert(0 <= q < pos + 1);
                    }
                }
            }
        }
        pos = pos + 1;
    }
    if shared {
        return true;
    }
    if !a_any {
        // a closed edge fits a closed facing edge
        let b_flags = edge_exit_flags(&b.pattern, cs, opp as i32);
        let b_any = flags_have_exit(&b_flags);
        proof {
            if b_any {
                let q = choose|q: int| 0 <= q < b_flags@.len() && b_flags@[q];
                assert(exit_at(b.pattern@, cs as int, opposite(d as int), q));
            } else {
                assert forall|q: int| 0 <= q < cs
                    implies !exit_at(b.pattern@, cs as int, opposite(d as int), q) by {
                    assert(!b_flags@[q]);
                }
            }
        }
        return !b_any;
    }
    false
}

/// Build the constraint library: each pattern's exit masks, its has-exits
/// flag, and for every direction the exact list of patterns that fit it.
#[verifier::rlimit(100)]
pub fn patterns_to_constraints(patterns: Vec<Vec<TileType>>, chunk_size: i32) -> (r: Vec<MapChunk>)
    requires
        1 <= chunk_size <= 64,
        forall|k: int| 0 <= k < patterns@.len()
            ==> chunk_wf((#[trigger] patterns@[k])@, chunk_size as int),
    ensures
        r@.len() == patterns@.len(),
        forall|k: int| 0 <= k < r@.len() ==> (#[trigger] r@[k]).pattern@ == (patterns@[k])@,
        constraints_ok(r@, chunk_size as int),
{
    let cs = chunk_size;
    let n = patterns.len();
    let mut constraints: Vec<MapChunk> = Vec::new();

    // first pass: exit masks and the has-exits flag
    let mut k: usize = 0;
    while k < n
        invariant
            1 <= cs <= 64,
            n == patterns@.len(),
            forall|k2: int| 0 <= k2 < patterns@.len()
                ==> chunk_wf((#[trigger] patterns@[k2])@, cs as int),
            k <= n,
            constraints@.len() == k,
            forall|k2: int| 0 <= k2 < k
                ==> (#[trigger] constraints@[k2]).pattern@ == (patterns@[k2])@,
            forall|k2: int| 0 <= k2 < k
                ==> chunk_inv(#[trigger] constraints@[k2], cs as int, n as int),
        decreases n - k,
    {
        let pattern = patterns[k].clone();
        proof {
            assert(pattern@ =~= (patterns@[k as int])@);
        }
        let e0 = edge_exit_flags(&pattern, cs, 0);
        let e1 = edge_exit_flags(&pattern, cs, 1);
        let e2 = edge_exit_flags(&pattern, cs, 2);
        let e3 = edge_exit_flags(&pattern, cs, 3);
        let any0 = flags_have_exit(&e0);
        let any1 = flags_have_exit(&e1);
        let any2 = flags_have_exit(&e2);
        let any3 = flags_have_exit(&e3);
        let has_exits = any0 || any1 || any2 || any3;
        proof {
            assert(any0 == edge_has_exit(pattern@, cs as int, 0)) by {
                if any0 {
                    let q = choose|q: int| 0 <= q < e0@.len() && e0@[q];
                    assert(exit_at(pattern@, cs as int, 0, q));
                } else {
                    assert forall|q: int| 0 <= q < cs
                        implies !exit_at(pattern@, cs as int, 0, q) by {
                        assert(!e0@[q]);
                    }
                }
            }
            assert(any1 == edge_has_exit(pattern@, cs as int, 1)) by {
                if any1 {
                    let q = choose|q: int| 0 <= q < e1@.len() && e1@[q];
                    assert(exit_at(pattern@, cs as int, 1, q));
                } else {
                    assert forall|q: int| 0 <= q < cs
                        implies !exit_at(pattern@, cs as int, 1, q) by {
                        assert(!e1@[q]);
                    }
                }
            }
            assert(any2 == edge_has_exit(pattern@, cs as int, 2)) by {
                if any2 {
                    let q = choose|q: int| 0 <= q < e2@.len() && e2@[q];
                    assert(exit_at(pattern@, cs as int, 2, q));
                } else {
                    assert forall|q: int| 0 <= q < cs
                        implies !exit_at(pattern@, cs as int, 2, q) by {
                        assert(!e2@[q]);
                    }
                }
            }
            assert(any3 == edge_has_exit(pattern@, cs as int, 3)) by {
                if any3 {
                    let q = choose|q: int| 0 <= q < e3@.len() && e3@[q];
                    assert(exit_at(pattern@, cs as int, 3, q));
                } else {
                    assert forall|q: int| 0 <= q < cs
                        implies !exit_at(pattern@, cs as int, 3, q) by {
                        assert(!e3@[q]);
                    }
                }
            }
            assert(has_exits == chunk_has_exits(pattern@, cs as int)) by {
                if has_exits {
                } else {
                    assert forall|d: int| 0 <= d < 4
                        implies !edge_has_exit(pattern@, cs as int, d) by {
                    }
                }
            }
        }
        let mut exits: Vec<Vec<bool>> = Vec::new();
        exits.push(e0);
        exits.push(e1);
        exits.push(e2);
        exits.push(e3);
        // the compatibility lists are filled by the second pass
        let mut compat: Vec<Vec<usize>> = Vec::new();
        compat.push(Vec::new());
        compat.push(Vec::new());
        compat.push(Vec::new());
        compat.push(Vec::new());
        let new_chunk = MapChunk {
            pattern,
            exits,
            has_exits,
            compatible_with: compat,
        };
        constraints.push(new_chunk);
        k = k + 1;
    }

    // second pass: compatibility lists
    let mut k2: usize = 0;
    let ghost mid = constraints@;
    while k2 < n
        invariant
            1 <= cs <= 64,
            n == patterns@.len(),
            constraints@.len() == n,
            mid.len() == n,
            forall|j: int| 0 <= j < n ==> (#[trigger] mid[j]).pattern@ == (patterns@[j])@,
            forall|j: int| 0 <= j < n ==> chunk_inv(#[trigger] mid[j], cs as int, n as int),
            forall|j: int| k2 <= j < n ==> #[trigger] constraints@[j] == mid[j],
            forall|j: int| 0 <= j < n
                ==> chunk_edges_ok(#[trigger] constraints@[j], cs as int),
            forall|j: int| 0 <= j < n ==> (#[trigger] constraints@[j]).pattern@
                == (patterns@[j])@,
            forall|j: int| 0 <= j < k2
                ==> chunk_inv(#[trigger] constraints@[j], cs as int, n as int),
            forall|j: int, d: int, m: usize| 0 <= j < k2 && 0 <= d < 4
                ==> ((#[trigger] constraints@[j].compatible_with@[d]@.contains(m))
                    <==> ((m as int) < n && chunk_fits(
                        (patterns@[j])@, (patterns@[m as int])@, cs as int, d))),
        decreases n - k2,
    {
        let mut compat: Vec<Vec<usize>> = Vec::new();
        let mut d: i32 = 0;
        while d < 4
            invariant
                1 <= cs <= 64,
                n == patterns@.len(),
                constraints@.len() == n,
                mid.len() == n,
                k2 < n,
                0 <= d <= 4,
                compat@.len() == d,
                forall|j2: int| 0 <= j2 < n
                    ==> chunk_edges_ok(#[trigger] constraints@[j2], cs as int),
                forall|j2: int| 0 <= j2 < n ==> (#[trigger] constraints@[j2]).pattern@
                    == (patterns@[j2])@,
                forall|j: int| 0 <= j < n ==> chunk_inv(#[trigger] mid[j], cs as int, n as int),
                forall|j: int| k2 <= j < n ==> #[trigger] constraints@[j] == mid[j],
                forall|d2: int| 0 <= d2 < d ==> (#[trigger] compat@[d2])@.len() <= n,
                forall|d2: int, m: usize| 0 <= d2 < d
                    ==> ((#[trigger] compat@[d2]@.contains(m)) <==> ((m as int) < n
                        && chunk_fits(
                            (patterns@[k2 as int])@, (patterns@[m as int])@, cs as int, d2))),
            decreases 4 - d,
        {
            let mut list: Vec<usize> = Vec::new();
            let mut j: usize = 0;
            while j < n
                invariant
                    1 <= cs <= 64,
                    n == patterns@.len(),
                    constraints@.len() == n,
                    mid.len() == n,
                    k2 < n,
                    0 <= d < 4,
                    j <= n,
                    forall|j2: int| 0 <= j2 < n
                        ==> chunk_edges_ok(#[trigger] constraints@[j2], cs as int),
                    forall|j2: int| 0 <= j2 < n ==> (#[trigger] constraints@[j2]).pattern@
                        == (patterns@[j2])@,
                    list@.len() <= j,
                    forall|m: usize| #[trigger] list@.contains(m) ==> (m as int) < j,
                    forall|m: usize| (m as int) < j ==> (#[trigger] list@.contains(m)
                        <==> chunk_fits(
                            (patterns@[k2 as int])@, (patterns@[m as int])@, cs as int, d as int)),
                decreases n - j,
            {
                let fits = fits_exec(&constraints[k2], &constraints[j], cs, d);
                let ghost pre = list@;
                if fits {
                    list.push(j);
                }
                proof {
                    assert forall|m: usize| #[trigger] list@.contains(m)
                        implies (m as int) < j + 1 by {
                        let w = choose|w: int| 0 <= w < list@.len() && list@[w] == m;
                        if w < pre.len() {
                            assert(pre[w] == m);
                            assert(pre.contains(m));
                        }
                    }
                    assert forall|m: usize| (m as int) < j + 1 implies
                        ((#[trigger] list@.contains(m)) <==> chunk_fits(
                            (patterns@[k2 as int])@, (patterns@[m as int])@,
                            cs as int, d as int)) by {
                        if m == j {
                            if fits {
                                assert(list@[list@.len() - 1] == j);
                                assert(list@.contains(j));
                            } else {
                                if list@.contains(j) {
                                    assert(pre.contains(j));
                                    assert(false);
                                }
                            }
                        } else {
                            assert(pre.contains(m) <==> chunk_fits(
                                (patterns@[k2 as int])@, (patterns@[m as int])@,
                                cs as int, d as int));
                            if pre.contains(m) {
                                let w = choose|w: int| 0 <= w < pre.len() && pre[w] == m;
                                assert(list@[w] == m);
                                assert(list@.contains(m));
                            }
                            if list@.contains(m) {
                                let w = choose|w: int| 0 <= w < list@.len() && list@[w] == m;
                                if fits && w == list@.len() - 1 {
                                    assert(m == j);
                                } else {
                                    assert(pre[w] == m);
                                    assert(pre.contains(m));
                                }
                            }
                        }
                    }
                }
                j = j + 1;
            }
            compat.push(list);
            d = d + 1;
        }
        let ghost pre_remove = constraints@;
        let chunk_old = constraints.remove(k2);
        let chunk_new = MapChunk {
            pattern: chunk_old.pattern,
            exits: chunk_old.exits,
            has_exits: chunk_old.has_exits,
            compatible_with: compat,
        };
        constraints.insert(k2, chunk_new);
        proof {
            assert(constraints@ =~= pre_remove.update(k2 as int, constraints@[k2 as int]));
            let c = constraints@[k2 as int];
            assert(chunk_inv(c, cs as int, n as int)) by {
                assert(chunk_edges_ok(c, cs as int));
                assert(c.compatible_with@.len() == 4);
                assert(forall|d2: int| 0 <= d2 < 4
                    ==> (#[trigger] c.compatible_with@[d2])@.len() <= n);
                assert forall|d2: int, m: int| 0 <= d2 < 4
                    && 0 <= m < c.compatible_with@[d2]@.len()
                    implies ((#[trigger] c.compatible_with@[d2]@[m]) as int) < n by {
                    assert(c.compatible_with@[d2]@.contains(c.compatible_with@[d2]@[m]));
                }
            }
        }
        k2 = k2 + 1;
    }

    constraints
}


/// Mark the exit cells of one edge of a rendered chunk with StairsDown so a
/// gallery snapshot shows where the chunk can connect.
pub fn highlight_exits(
    map: &mut Grid,
    chunk: &MapChunk,
    chunk_size: i32,
    start_x: i32,
    start_y: i32,
    exit_count: usize,
)
    requires
        old(map).inv(),
        1 <= chunk_size <= 64,
        chunk_edges_ok(*chunk, chunk_size as int),
        exit_count < 4,
        0 <= start_x,
        start_x + chunk_size <= old(map).width,
        0 <= start_y,
        start_y + chunk_size <= old(map).height,
    ensures
        final(map).inv(),
        final(map).width == old(map).width,
        final(map).height == old(map).height,
        final(map).depth == old(map).depth,
        final(map).tiles@.len() == old(map).tiles@.len(),
        final(map).revealed_tiles@ == old(map).revealed_tiles@,
        final(map).visible_tiles@ == old(map).visible_tiles@,
        final(map).blocked@ == old(map).blocked@,
        // the pass only overwrites window-boundary cells with the exit marker
        forall|i: int| 0 <= i < final(map).tiles@.len()
            ==> final(map).tiles@[i] == old(map).tiles@[i]
                || #[trigger] final(map).tiles@[i] == TileType::StairsDown,
        forall|a: int, b: int| old(map).in_bounds(a, b)
            && !(start_x <= a < start_x + chunk_size && start_y <= b < start_y + chunk_size)
            ==> final(map).tiles@[#[trigger] old(map).idx(a, b)]
                == old(map).tiles@[old(map).idx(a, b)],
{
    let cs = chunk_size;
    let mut pos: i32 = 0;
    while pos < cs
        invariant
            old(map).inv(),
            map.inv(),
            map.width == old(map).width,
            map.height == old(map).height,
            map.depth == old(map).depth,
            map.tiles@.len() == old(map).tiles@.len(),
            map.revealed_tiles@ == old(map).revealed_tiles@,
            map.visible_tiles@ == old(map).visible_tiles@,
            map.blocked@ == old(map).blocked@,
            1 <= cs <= 64,
            chunk_edges_ok(*chunk, cs as int),
            exit_count < 4,
            0 <= start_x,
            start_x + cs <= map.width,
            0 <= start_y,
            start_y + cs <= map.height,
            0 <= pos <= cs,
            forall|i: int| 0 <= i < map.tiles@.len()
                ==> map.tiles@[i] == old(map).tiles@[i]
                    || #[trigger] map.tiles@[i] == TileType::StairsDown,
            forall|a: int, b: int| old(map).in_bounds(a, b)
                && !(start_x <= a < start_x + cs && start_y <= b < start_y + cs)
                ==> map.tiles@[#[trigger] old(map).idx(a, b)]
                    == old(map).tiles@[old(map).idx(a, b)],
        decreases cs - pos,
    {
        let dir = chunk.exits[exit_count][pos as usize];
        if dir {
            let x_pos = if exit_count == 0 || exit_count == 1 {
                start_x + pos
            } else if exit_count == 2 {
                start_x
            } else {
                start_x + cs - 1
            };
            let y_pos = if exit_count == 0 {
                start_y
            } else if exit_count == 1 {
                start_y + cs - 1
            } else {
                start_y + pos
            };
            let ghost pre = *map;
            map.set_tile(x_pos, y_pos, TileType::StairsDown);
            proof {
                old(map).lemma_idx_bounds(x_pos as int, y_pos as int);
                assert forall|a: int, b: int|
                    old(map).in_bounds(a, b)
                        && (a != x_pos as int || b != y_pos as int)
                    implies map.tiles@[#[trigger] old(map).idx(a, b)]
                        == pre.tiles@[old(map).idx(a, b)] by {
                    old(map).lemma_idx_bounds(a, b);
                    if old(map).idx(a, b) == old(map).idx(x_pos as int, y_pos as int) {
                        old(map).lemma_idx_injective(a, b, x_pos as int, y_pos as int);
                    }
                }
            }
        }
        pos = pos + 1;
    }
}

/// Render one chunk into a gallery map at the given window, revealing the
/// window and marking its exit cells.
pub fn render_pattern_to_map(
    map: &mut Grid,
    chunk: &MapChunk,
    chunk_size: i32,
    start_x: i32,
    start_y: i32,
)
    requires
        old(map).inv(),
        1 <= chunk_size <= 64,
        chunk_edges_ok(*chunk, chunk_size as int),
        0 <= start_x,
        start_x + chunk_size <= old(map).width,
        0 <= start_y,
        start_y + chunk_size <= old(map).height,
    ensures
        final(map).inv(),
        final(map).width == old(map).width,
        final(map).height == old(map).height,
        final(map).depth == old(map).depth,
        final(map).tiles@.len() == old(map).tiles@.len(),
        final(map).revealed_tiles@ == old(map).revealed_tiles@,
        final(map).blocked@ == old(map).blocked@,
        // the window is revealed and holds the pattern, with exit cells
        // overdrawn as the stairs marker; everything outside is untouched
        forall|dx: int, dy: int| 0 <= dx < chunk_size && 0 <= dy < chunk_size
            ==> final(map).visible_tiles@[
                    #[trigger] old(map).idx(start_x + dx, start_y + dy)]
                && (final(map).tiles@[old(map).idx(start_x + dx, start_y + dy)]
                        == chunk.pattern@[dy * chunk_size + dx]
                    || final(map).tiles@[old(map).idx(start_x + dx, start_y + dy)]
                        == TileType::StairsDown),
        forall|a: int, b: int| old(map).in_bounds(a, b)
            && !(start_x <= a < start_x + chunk_size && start_y <= b < start_y + chunk_size)
            ==> final(map).tiles@[#[trigger] old(map).idx(a, b)]
                    == old(map).tiles@[old(map).idx(a, b)]
                && final(map).visible_tiles@[old(map).idx(a, b)]
                    == old(map).visible_tiles@[old(map).idx(a, b)],
{
    let cs = chunk_size;
    let mut tile_y: i32 = 0;
    while tile_y < cs
        invariant
            old(map).inv(),
            map.inv(),
            map.width == old(map).width,
            map.height == old(map).height,
            map.depth == old(map).depth,
            map.tiles@.len() == old(map).tiles@.len(),
            map.visible_tiles@.len() == map.tiles@.len(),
            map.revealed_tiles@ == old(map).revealed_tiles@,
            map.blocked@ == old(map).blocked@,
            1 <= cs <= 64,
            chunk_edges_ok(*chunk, cs as int),
            0 <= start_x,
            start_x + cs <= map.width,
            0 <= start_y,
            start_y + cs <= map.height,
            0 <= tile_y <= cs,
            forall|dx: int, dy: int| 0 <= dx < cs && 0 <= dy < tile_y
                ==> map.visible_tiles@[#[trigger] old(map).idx(start_x + dx, start_y + dy)]
                    && map.tiles@[old(map).idx(start_x + dx, start_y + dy)]
                        == chunk.pattern@[dy * cs + dx],
            forall|a: int, b: int| old(map).in_bounds(a, b)
                && !(start_x <= a < start_x + cs && start_y <= b < start_y + tile_y)
                ==> map.tiles@[#[trigger] old(map).idx(a, b)]
                        == old(map).tiles@[old(map).idx(a, b)]
                    && map.visible_tiles@[old(map).idx(a, b)]
                        == old(map).visible_tiles@[old(map).idx(a, b)],
        decreases cs - tile_y,
    {
        let mut tile_x: i32 = 0;
        while tile_x < cs
            invariant
                old(map).inv(),
                map.inv(),
                map.width == old(map).width,
                map.height == old(map).height,
                map.depth == old(map).depth,
                map.tiles@.len() == old(map).tiles@.len(),
                map.visible_tiles@.len() == map.tiles@.len(),
                map.revealed_tiles@ == old(map).revealed_tiles@,
                map.blocked@ == old(map).blocked@,
                1 <= cs <= 64,
                chunk_edges_ok(*chunk, cs as int),
                0 <= start_x,
                start_x + cs <= map.width,
                0 <= start_y,
                start_y + cs <= map.height,
                0 <= tile_y < cs,
                0 <= tile_x <= cs,
                forall|dx: int, dy: int| 0 <= dx < cs
                    && (0 <= dy < tile_y || (dy == tile_y && 0 <= dx < tile_x))
                    ==> map.visible_tiles@[
                            #[trigger] old(map).idx(start_x + dx, start_y + dy)]
                        && map.tiles@[old(map).idx(start_x + dx, start_y + dy)]
                            == chunk.pattern@[dy * cs + dx],
                forall|a: int, b: int| old(map).in_bounds(a, b)
                    && !(start_x <= a < start_x + cs
                        && (start_y <= b < start_y + tile_y
                            || (b == start_y + tile_y && start_x <= a < start_x + tile_x)))
                    ==> map.tiles@[#[trigger] old(map).idx(a, b)]
                            == old(map).tiles@[old(map).idx(a, b)]
                        && map.visible_tiles@[old(map).idx(a, b)]
                            == old(map).visible_tiles@[old(map).idx(a, b)],
            decreases cs - tile_x,
        {
            let pi = tile_index_in_chunk(cs, tile_x, tile_y);
            let t = chunk.pattern[pi];
            let ghost pre = *map;
            map.set_tile(start_x + tile_x, start_y + tile_y, t);
            let map_index = map.xy_idx(start_x + tile_x, start_y + tile_y);
            map.visible_tiles.set(map_index, true);
            proof {
                old(map).lemma_idx_bounds(
                    start_x as int + tile_x as int, start_y as int + tile_y as int);
                assert forall|a: int, b: int|
                    old(map).in_bounds(a, b)
                        && (a != start_x as int + tile_x as int
                            || b != start_y as int + tile_y as int)
                    implies map.tiles@[#[trigger] old(map).idx(a, b)]
                            == pre.tiles@[old(map).idx(a, b)]
                        && map.visible_tiles@[old(map).idx(a, b)]
                            == pre.visible_tiles@[old(map).idx(a, b)] by {
                    old(map).lemma_idx_bounds(a, b);
                    if old(map).idx(a, b) == old(map).idx(
                        start_x as int + tile_x as int, start_y as int + tile_y as int) {
                        old(map).lemma_idx_injective(a, b,
                            start_x as int + tile_x as int, start_y as int + tile_y as int);
                    }
                }
            }
            tile_x = tile_x + 1;
        }
        tile_y = tile_y + 1;
    }

    let ghost stamped = *map;
    let mut exit_count: usize = 0;
    while exit_count < 4
        invariant
            old(map).inv(),
            map.inv(),
            map.width == old(map).width,
            map.height == old(map).height,
            map.depth == old(map).depth,
            map.tiles@.len() == old(map).tiles@.len(),
            map.revealed_tiles@ == old(map).revealed_tiles@,
            map.visible_tiles@ == stamped.visible_tiles@,
            map.blocked@ == old(map).blocked@,
            1 <= cs <= 64,
            chunk_edges_ok(*chunk, cs as int),
            0 <= start_x,
            start_x + cs <= map.width,
            0 <= start_y,
            start_y + cs <= map.height,
            exit_count <= 4,
            stamped.inv(),
            stamped.width == old(map).width,
            stamped.height == old(map).height,
            stamped.tiles@.len() == old(map).tiles@.len(),
            forall|i: int| 0 <= i < map.tiles@.len()
                ==> map.tiles@[i] == stamped.tiles@[i]
                    || #[trigger] map.tiles@[i] == TileType::StairsDown,
            forall|a: int, b: int| old(map).in_bounds(a, b)
                && !(start_x <= a < start_x + cs && start_y <= b < start_y + cs)
                ==> map.tiles@[#[trigger] old(map).idx(a, b)]
                    == stamped.tiles@[old(map).idx(a, b)],
            forall|dx: int, dy: int| 0 <= dx < cs && 0 <= dy < cs
                ==> stamped.visible_tiles@[
                        #[trigger] old(map).idx(start_x + dx, start_y + dy)]
                    && stamped.tiles@[old(map).idx(start_x + dx, start_y + dy)]
                        == chunk.pattern@[dy * cs + dx],
            forall|a: int, b: int| old(map).in_bounds(a, b)
                && !(start_x <= a < start_x + cs && start_y <= b < start_y + cs)
                ==> stamped.tiles@[#[trigger] old(map).idx(a, b)]
                        == old(map).tiles@[old(map).idx(a, b)]
                    && stamped.visible_tiles@[old(map).idx(a, b)]
                        == old(map).visible_tiles@[old(map).idx(a, b)],
        decreases 4 - exit_count,
    {
        let ghost pre2 = *map;
        highlight_exits(map, chunk, cs, start_x, start_y, exit_count);
        proof {
            // bridge the pass's frame to the stamped snapshot: both maps
            // share the same shape, so the flat indices agree
            assert forall|a: int, b: int| old(map).in_bounds(a, b)
                && !(start_x <= a < start_x + cs && start_y <= b < start_y + cs)
                implies map.tiles@[#[trigger] old(map).idx(a, b)]
                    == stamped.tiles@[old(map).idx(a, b)] by {
                assert(pre2.in_bounds(a, b) == old(map).in_bounds(a, b));
                assert(pre2.idx(a, b) == old(map).idx(a, b));
                assert(map.tiles@[pre2.idx(a, b)] == pre2.tiles@[pre2.idx(a, b)]);
            }
        }
        exit_count = exit_count + 1;
    }
    proof {
        assert forall|dx: int, dy: int| 0 <= dx < cs && 0 <= dy < cs
            implies map.visible_tiles@[#[trigger] old(map).idx(start_x + dx, start_y + dy)]
                && (map.tiles@[old(map).idx(start_x + dx, start_y + dy)]
                        == chunk.pattern@[dy * cs + dx]
                    || map.tiles@[old(map).idx(start_x + dx, start_y + dy)]
                        == TileType::StairsDown) by {
            old(map).lemma_idx_bounds(
                start_x as int + dx, start_y as int + dy);
        }
    }
}

} // verus!
