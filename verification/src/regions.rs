//! The region partitioner: group interior floor tiles into spawn regions by
//! their quantized cellular-noise value. Regions are loose noise-correlated
//! clusters, which is all the spawn subsystem needs.

use vstd::prelude::*;
use crate::grid::Grid;
use crate::noise::{RegionNoise, noise_cell_of};
use crate::rng::{RandomStream, roll_of, dice_draw};
use crate::tile::TileType;

verus! {

/// The spawn regions of a map: the keys are distinct quantized noise values,
/// every listed index names an interior floor tile of the map, the buckets
/// are pairwise disjoint, and no bucket is empty.
pub open spec fn regions_wf(r: Seq<(i32, Vec<usize>)>, m: Grid) -> bool {
    &&& forall|e1: int, e2: int| 0 <= e1 < e2 < r.len() ==> r[e1].0 != r[e2].0
    &&& forall|e: int, j: int| 0 <= e < r.len() && 0 <= j < r[e].1@.len()
        ==> #[trigger] r[e].1@[j] < m.tiles@.len()
            && m.tiles@[r[e].1@[j] as int] == TileType::Floor
    &&& forall|e: int| 0 <= e < r.len() ==> #[trigger] r[e].1@.len() >= 1
    &&& forall|e: int, j: int| 0 <= e < r.len() && 0 <= j < r[e].1@.len()
        ==> 1 <= (#[trigger] r[e].1@[j]) as int % (m.width as int) < m.width - 1
            && 1 <= r[e].1@[j] as int / (m.width as int) < m.height - 1
    &&& forall|e1: int, j1: int, e2: int, j2: int|
        0 <= e1 < r.len() && 0 <= j1 < r[e1].1@.len()
            && 0 <= e2 < r.len() && 0 <= j2 < r[e2].1@.len()
            && (e1 != e2 || j1 != j2)
        ==> (#[trigger] r[e1].1@[j1]) != (#[trigger] r[e2].1@[j2])
}

/// Every member of a region carries the region's key as its own quantized
/// noise value: two tiles share a bucket exactly when the noise field agrees
/// on them.
pub open spec fn regions_keyed(r: Seq<(i32, Vec<usize>)>, m: Grid, seed: u64) -> bool {
    forall|e: int, j: int| 0 <= e < r.len() && 0 <= j < r[e].1@.len()
        ==> r[e].0 == noise_cell_of(
            seed,
            (#[trigger] r[e].1@[j]) as int % (m.width as int),
            r[e].1@[j] as int / (m.width as int),
        )
}

/// Every region member was taken from a scan position strictly before (x, y)
/// in row-major order.
spec fn members_scanned_before(r: Seq<(i32, Vec<usize>)>, m: Grid, x: int, y: int) -> bool {
    forall|e: int, j: int| 0 <= e < r.len() && 0 <= j < r[e].1@.len()
        ==> ({
            let i = (#[trigger] r[e].1@[j]) as int;
            ||| i / (m.width as int) < y
            ||| (i / (m.width as int) == y && i % (m.width as int) < x)
        })
}

/// The regions cover tile (x, y): some region's list holds its flat index.
pub open spec fn covered(r: Seq<(i32, Vec<usize>)>, m: Grid, x: int, y: int) -> bool {
    exists|e: int| 0 <= e < r.len() && (#[trigger] r[e]).1@.contains(m.idx(x, y) as usize)
}

/// Growing one bucket by the tile at scan position (x, y) keeps the regions
/// well-formed and keyed: the new member's quantized noise value is the
/// bucket's key, and it differs from every member stored so far because all
/// of those came from strictly earlier scan positions.
proof fn lemma_add_member(
    rpre: Seq<(i32, Vec<usize>)>,
    rpost: Seq<(i32, Vec<usize>)>,
    m: Grid,
    e: int,
    iv: usize,
    x: int,
    y: int,
    seed: u64,
)
    requires
        m.inv(),
        regions_wf(rpre, m),
        regions_keyed(rpre, m, seed),
        members_scanned_before(rpre, m, x, y),
        0 <= e < rpre.len(),
        rpost.len() == rpre.len(),
        forall|e2: int| 0 <= e2 < rpre.len() && e2 != e ==> rpost[e2] == rpre[e2],
        rpost[e].0 == rpre[e].0,
        rpost[e].1@ == rpre[e].1@.push(iv),
        rpre[e].0 == noise_cell_of(seed, x, y),
        iv as int % (m.width as int) == x,
        iv as int / (m.width as int) == y,
        iv < m.tiles@.len(),
        m.tiles@[iv as int] == TileType::Floor,
        1 <= x < m.width - 1,
        1 <= y < m.height - 1,
    ensures
        regions_wf(rpost, m),
        regions_keyed(rpost, m, seed),
        members_scanned_before(rpost, m, x + 1, y),
{
    let jn = rpre[e].1@.len() as int;
    assert forall|ek: int, jk: int| 0 <= ek < rpost.len() && 0 <= jk < rpost[ek].1@.len()
        implies (#[trigger] rpost[ek].1@[jk]) == (
            if ek == e && jk == jn { iv } else { rpre[ek].1@[jk] }) by {}
    assert forall|e1: int, j1: int, e2: int, j2: int|
        0 <= e1 < rpost.len() && 0 <= j1 < rpost[e1].1@.len()
            && 0 <= e2 < rpost.len() && 0 <= j2 < rpost[e2].1@.len()
            && (e1 != e2 || j1 != j2)
        implies (#[trigger] rpost[e1].1@[j1]) != (#[trigger] rpost[e2].1@[j2]) by {
        if e1 == e && j1 == jn {
            let ov = rpre[e2].1@[j2];
            assert(ov as int / (m.width as int) < y
                || (ov as int / (m.width as int) == y && ov as int % (m.width as int) < x));
        } else if e2 == e && j2 == jn {
            let ov = rpre[e1].1@[j1];
            assert(ov as int / (m.width as int) < y
                || (ov as int / (m.width as int) == y && ov as int % (m.width as int) < x));
        }
    }
}

/// Opening a fresh bucket for the tile at scan position (x, y), under a key
/// no existing bucket holds, keeps the regions well-formed and keyed.
proof fn lemma_new_region(
    rpre: Seq<(i32, Vec<usize>)>,
    rpost: Seq<(i32, Vec<usize>)>,
    m: Grid,
    iv: usize,
    x: int,
    y: int,
    seed: u64,
)
    requires
        m.inv(),
        regions_wf(rpre, m),
        regions_keyed(rpre, m, seed),
        members_scanned_before(rpre, m, x, y),
        rpost.len() == rpre.len() + 1,
        forall|e2: int| 0 <= e2 < rpre.len() ==> rpost[e2] == rpre[e2],
        rpost[rpre.len() as int].0 == noise_cell_of(seed, x, y),
        rpost[rpre.len() as int].1@ =~= seq![iv],
        forall|e2: int| 0 <= e2 < rpre.len()
            ==> (#[trigger] rpre[e2]).0 != noise_cell_of(seed, x, y),
        iv as int % (m.width as int) == x,
        iv as int / (m.width as int) == y,
        iv < m.tiles@.len(),
        m.tiles@[iv as int] == TileType::Floor,
        1 <= x < m.width - 1,
        1 <= y < m.height - 1,
    ensures
        regions_wf(rpost, m),
        regions_keyed(rpost, m, seed),
        members_scanned_before(rpost, m, x + 1, y),
{
    let en = rpre.len() as int;
    assert forall|e1: int, j1: int, e2: int, j2: int|
        0 <= e1 < rpost.len() && 0 <= j1 < rpost[e1].1@.len()
            && 0 <= e2 < rpost.len() && 0 <= j2 < rpost[e2].1@.len()
            && (e1 != e2 || j1 != j2)
        implies (#[trigger] rpost[e1].1@[j1]) != (#[trigger] rpost[e2].1@[j2]) by {
        if e1 == en {
            let ov = rpre[e2].1@[j2];
            assert(ov as int / (m.width as int) < y
                || (ov as int / (m.width as int) == y && ov as int % (m.width as int) < x));
        } else if e2 == en {
            let ov = rpre[e1].1@[j1];
            assert(ov as int / (m.width as int) < y
                || (ov as int / (m.width as int) == y && ov as int % (m.width as int) < x));
        }
    }
}

/// Bucket every interior floor tile of the map by its quantized noise value.
/// Each returned region key is distinct, holds only floor-tile indices, and
/// every interior floor tile lands in some region.
pub fn bucket_floor_tiles(map: &Grid, noise: &RegionNoise) -> (r: Vec<(i32, Vec<usize>)>)
    requires
        map.inv(),
    ensures
        regions_wf(r@, *map),
        regions_keyed(r@, *map, noise.seed()),
        forall|x: int, y: int| 0 < x < map.width - 1 && 0 < y < map.height - 1
            && map.tiles@[#[trigger] map.idx(x, y)] == TileType::Floor
            ==> covered(r@, *map, x, y),
{
    let mut r: Vec<(i32, Vec<usize>)> = Vec::new();
    let w = map.width;
    let h = map.height;
    let mut y: i32 = 1;
    while y < h - 1
        invariant
            map.inv(),
            w == map.width,
            h == map.height,
            1 <= y <= h - 1,
            regions_wf(r@, *map),
            regions_keyed(r@, *map, noise.seed()),
            members_scanned_before(r@, *map, 1, y as int),
            forall|a: int, b: int| 0 < a < map.width - 1 && 0 < b < y
                && map.tiles@[#[trigger] map.idx(a, b)] == TileType::Floor
                ==> covered(r@, *map, a, b),
        decreases h - y,
    {
        let mut x: i32 = 1;
        while x < w - 1
            invariant
                map.inv(),
                w == map.width,
                h == map.height,
                1 <= y < h - 1,
                1 <= x <= w - 1,
                regions_wf(r@, *map),
                regions_keyed(r@, *map, noise.seed()),
                members_scanned_before(r@, *map, x as int, y as int),
                forall|a: int, b: int| 0 < a < map.width - 1 && (0 < b < y
                    || (b == y && 0 < a < x))
                    && map.tiles@[#[trigger] map.idx(a, b)] == TileType::Floor
                    ==> covered(r@, *map, a, b),
            decreases w - x,
        {
            let i = map.xy_idx(x, y);
            proof {
                assert(i as int % (map.width as int) == x as int
                    && i as int / (map.width as int) == y as int) by (nonlinear_arith)
                    requires
                        i as int == y as int * (map.width as int) + x as int,
                        0 <= x as int,
                        (x as int) < map.width as int,
                        0 <= y as int,
                        map.width as int > 0,
                ;
            }
            let t = map.tiles[i];
            let is_floor = match t {
                TileType::Floor => true,
                _ => false,
            };
            if is_floor {
                let cell_value = noise.cell_value(x, y);
                let mut found = false;
                let mut e: usize = 0;
                while e < r.len() && !found
                    invariant
                        map.inv(),
                        e <= r@.len(),
                        i < map.tiles@.len(),
                        i == map.idx(x as int, y as int),
                        map.in_bounds(x as int, y as int),
                        map.tiles@[i as int] == TileType::Floor,
                        cell_value == noise_cell_of(noise.seed(), x as int, y as int),
                        i as int % (map.width as int) == x as int,
                        i as int / (map.width as int) == y as int,
                        1 <= x as int && (x as int) < map.width - 1,
                        1 <= y as int && (y as int) < map.height - 1,
                        regions_wf(r@, *map),
                        regions_keyed(r@, *map, noise.seed()),
                        members_scanned_before(r@, *map, x as int + 1, y as int),
                        !found ==> members_scanned_before(r@, *map, x as int, y as int),
                        forall|a: int, b: int| 0 < a < map.width - 1 && (0 < b < y as int
                            || (b == y as int && 0 < a < x as int))
                            && map.tiles@[#[trigger] map.idx(a, b)] == TileType::Floor
                            ==> covered(r@, *map, a, b),
                        found ==> covered(r@, *map, x as int, y as int),
                        !found ==> forall|e2: int| 0 <= e2 < e
                            ==> (#[trigger] r@[e2]).0 != cell_value,
                    decreases r@.len() - e + (if found { 0int } else { 1int }),
                {
                    if r[e].0 == cell_value {
                        let ghost rpre = r@;
                        let mut entry = r.remove(e);
                        entry.1.push(i);
                        r.insert(e, entry);
                        proof {
                            assert(r@ =~= rpre.update(e as int,
                                (rpre[e as int].0, r@[e as int].1)));
                            lemma_add_member(
                                rpre, r@, *map, e as int, i,
                                x as int, y as int, noise.seed(),
                            );
                            // existing coverage survives the grown entry, and
                            // the current tile is now covered by it
                            assert forall|a: int, b: int| covered(rpre, *map, a, b)
                                implies covered(r@, *map, a, b) by {
                                let e2 = choose|e2: int| 0 <= e2 < rpre.len()
                                    && (#[trigger] rpre[e2]).1@.contains(
                                        map.idx(a, b) as usize);
                                if e2 == e as int {
                                    let k = choose|k: int| 0 <= k < rpre[e2].1@.len()
                                        && rpre[e2].1@[k] == map.idx(a, b) as usize;
                                    assert(r@[e2].1@[k] == map.idx(a, b) as usize);
                                    assert(r@[e2].1@.contains(map.idx(a, b) as usize));
                                } else {
                                    assert(r@[e2].1@.contains(map.idx(a, b) as usize));
                                }
                            }
                            assert(r@[e as int].1@[r@[e as int].1@.len() - 1]
                                == map.idx(x as int, y as int) as usize);
                            assert(covered(r@, *map, x as int, y as int));
                        }
                        found = true;
                    } else {
                        e = e + 1;
                    }
                }
                if !found {
                    let ghost rpre = r@;
                    let mut v: Vec<usize> = Vec::new();
                    v.push(i);
                    r.push((cell_value, v));
                    proof {
                        lemma_new_region(
                            rpre, r@, *map, i, x as int, y as int, noise.seed(),
                        );
                        assert forall|a: int, b: int| covered(rpre, *map, a, b)
                            implies covered(r@, *map, a, b) by {
                            let e2 = choose|e2: int| 0 <= e2 < rpre.len()
                                && (#[trigger] rpre[e2]).1@.contains(map.idx(a, b) as usize);
                            assert(r@[e2] == rpre[e2]);
                            assert(r@[e2].1@.contains(map.idx(a, b) as usize));
                        }
                        assert(r@[r@.len() - 1].1@[0] == map.idx(x as int, y as int) as usize);
                        assert(covered(r@, *map, x as int, y as int));
                    }
                }
            }
            proof {
                assert forall|a: int, b: int| 0 < a < map.width - 1 && (0 < b < y as int
                    || (b == y as int && 0 < a < x as int + 1))
                    && map.tiles@[map.idx(a, b)] == TileType::Floor
                    implies covered(r@, *map, a, b) by {
                    if b == y as int && a == x as int {
                        map.lemma_idx_bounds(a, b);
                    }
                }
            }
            x = x + 1;
        }
        y = y + 1;
    }
    r
}

/// Group the map's interior floor tiles into spawn regions, seeding the noise
/// field from the build's random stream as the generators do: the keys are
/// the quantized values of the noise field seeded by that one named draw.
pub fn generate_voronoi_spawn_regions(map: &Grid, rng: &mut RandomStream) -> (r: Vec<
    (i32, Vec<usize>),
>)
    requires
        map.inv(),
    ensures
        regions_wf(r@, *map),
        regions_keyed(
            r@,
            *map,
            roll_of(old(rng).seed(), old(rng).history(), 1, 65536) as u64,
        ),
        forall|x: int, y: int| 0 < x < map.width - 1 && 0 < y < map.height - 1
            && map.tiles@[#[trigger] map.idx(x, y)] == TileType::Floor
            ==> covered(r@, *map, x, y),
        final(rng).seed() == old(rng).seed(),
        final(rng).history() == old(rng).history().push(dice_draw(1, 65536)),
{
    let nseed = rng.roll_dice(1, 65536);
    let noise = RegionNoise::with_seed(nseed as u64);
    bucket_floor_tiles(map, &noise)
}

} // verus!
