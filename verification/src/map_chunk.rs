//! The atomic unit of the wave-function-collapse layer: a square tile
//! pattern with per-edge exit masks and per-direction compatibility lists.
//! Directions are 0 top, 1 bottom, 2 left, 3 right; 0/1 and 2/3 are
//! complementary opposite pairs.

use vstd::prelude::*;
use crate::tile::TileType;

verus! {

/// A pattern holds exactly `chunk_size` squared tiles.
pub open spec fn chunk_wf(p: Seq<TileType>, cs: int) -> bool {
    p.len() == cs * cs
}

/// The flat index of (x, y) inside a chunk.
pub open spec fn chunk_idx(cs: int, x: int, y: int) -> int {
    y * cs + x
}

/// Executable counterpart of [`chunk_idx`].
pub fn tile_index_in_chunk(chunk_size: i32, x: i32, y: i32) -> (i: usize)
    requires
        1 <= chunk_size <= 64,
        0 <= x < chunk_size,
        0 <= y < chunk_size,
    ensures
        i == chunk_idx(chunk_size as int, x as int, y as int),
        i < chunk_size * chunk_size,
{
    proof {
        assert(y * chunk_size + x < chunk_size * chunk_size
            && chunk_size * chunk_size <= 64 * 64) by (nonlinear_arith)
            requires 0 <= x < chunk_size && 0 <= y < chunk_size && chunk_size <= 64
        ;
    }
    (y as usize) * (chunk_size as usize) + (x as usize)
}

/// The boundary cell of edge `d` at position `pos` along that edge.
pub open spec fn edge_cell(p: Seq<TileType>, cs: int, d: int, pos: int) -> TileType {
    if d == 0 {
        p[chunk_idx(cs, pos, 0)]
    } else if d == 1 {
        p[chunk_idx(cs, pos, cs - 1)]
    } else if d == 2 {
        p[chunk_idx(cs, 0, pos)]
    } else {
        p[chunk_idx(cs, cs - 1, pos)]
    }
}

/// Edge `d` has an exit (a floor cell) at position `pos`.
pub open spec fn exit_at(p: Seq<TileType>, cs: int, d: int, pos: int) -> bool {
    edge_cell(p, cs, d, pos) == TileType::Floor
}

/// Edge `d` has an exit somewhere.
pub open spec fn edge_has_exit(p: Seq<TileType>, cs: int, d: int) -> bool {
    exists|pos: int| 0 <= pos < cs && exit_at(p, cs, d, pos)
}

/// The chunk has an exit on some edge.
pub open spec fn chunk_has_exits(p: Seq<TileType>, cs: int) -> bool {
    exists|d: int| 0 <= d < 4 && edge_has_exit(p, cs, d)
}

/// The opposite of a direction: top/bottom and left/right swap.
pub open spec fn opposite(d: int) -> int {
    if d == 0 {
        1
    } else if d == 1 {
        0
    } else if d == 2 {
        3
    } else {
        2
    }
}

/// Chunk `a` accepts chunk `b` as its neighbor in direction `d`: either one
/// of the two has no exits at all (a blank filler fits anywhere), or some
/// exit position of `a`'s edge lines up with an exit on `b`'s opposite edge,
/// or both facing edges are fully closed.
pub open spec fn chunk_fits(a: Seq<TileType>, b: Seq<TileType>, cs: int, d: int) -> bool {
    if !chunk_has_exits(a, cs) || !chunk_has_exits(b, cs) {
        true
    } else {
        ||| exists|pos: int|
            0 <= pos < cs && exit_at(a, cs, d, pos) && exit_at(b, cs, opposite(d), pos)
        ||| (!edge_has_exit(a, cs, d) && !edge_has_exit(b, cs, opposite(d)))
    }
}

/// Compatibility is symmetric across opposite directions: when `a` accepts
/// `b` to its right, `b` accepts `a` to its left, and likewise for every
/// direction pair.
pub proof fn lemma_fits_symmetric(a: Seq<TileType>, b: Seq<TileType>, cs: int, d: int)
    requires
        0 <= d < 4,
    ensures
        chunk_fits(a, b, cs, d) == chunk_fits(b, a, cs, opposite(d)),
{
    assert(opposite(opposite(d)) == d);
    if chunk_has_exits(a, cs) && chunk_has_exits(b, cs) {
        if exists|pos: int|
            0 <= pos < cs && exit_at(a, cs, d, pos) && exit_at(b, cs, opposite(d), pos) {
            let pos = choose|pos: int|
                0 <= pos < cs && exit_at(a, cs, d, pos) && exit_at(b, cs, opposite(d), pos);
            assert(exit_at(b, cs, opposite(d), pos) && exit_at(a, cs, opposite(opposite(d)), pos));
        }
        if exists|pos: int|
            0 <= pos < cs && exit_at(b, cs, opposite(d), pos)
                && exit_at(a, cs, opposite(opposite(d)), pos) {
            let pos = choose|pos: int|
                0 <= pos < cs && exit_at(b, cs, opposite(d), pos)
                    && exit_at(a, cs, opposite(opposite(d)), pos);
            assert(exit_at(a, cs, d, pos) && exit_at(b, cs, opposite(d), pos));
        }
    }
}

/// A fixed-size tile pattern with its per-edge exit masks and, per direction,
/// the indices of the library patterns compatible across that edge.
pub struct MapChunk {
    pub pattern: Vec<TileType>,
    pub exits: Vec<Vec<bool>>,
    pub has_exits: bool,
    pub compatible_with: Vec<Vec<usize>>,
}

/// The chunk's derived data agrees with its pattern: the exit masks record
/// exactly the floor cells of each edge and `has_exits` says whether any
/// edge has one.
pub open spec fn chunk_edges_ok(c: MapChunk, cs: int) -> bool {
    &&& chunk_wf(c.pattern@, cs)
    &&& c.exits@.len() == 4
    &&& forall|d: int| 0 <= d < 4 ==> (#[trigger] c.exits@[d])@.len() == cs
    &&& forall|d: int, pos: int| 0 <= d < 4 && 0 <= pos < cs
        ==> (#[trigger] c.exits@[d]@[pos]) == exit_at(c.pattern@, cs, d, pos)
    &&& c.has_exits == chunk_has_exits(c.pattern@, cs)
}

/// [`chunk_edges_ok`], and every compatibility entry points into a library
/// of `n` patterns.
pub open spec fn chunk_inv(c: MapChunk, cs: int, n: int) -> bool {
    &&& chunk_edges_ok(c, cs)
    &&& c.compatible_with@.len() == 4
    &&& forall|d: int| 0 <= d < 4 ==> (#[trigger] c.compatible_with@[d])@.len() <= n
    &&& forall|d: int, k: int| 0 <= d < 4 && 0 <= k < c.compatible_with@[d]@.len()
        ==> ((#[trigger] c.compatible_with@[d]@[k]) as int) < n
}

/// Every chunk of a constraint library is well-formed and its compatibility
/// lists hold exactly the patterns that fit it in each direction.
pub open spec fn constraints_ok(cons: Seq<MapChunk>, cs: int) -> bool {
    &&& forall|k: int| 0 <= k < cons.len() ==> chunk_inv(#[trigger] cons[k], cs, cons.len() as int)
    &&& forall|k: int, d: int, j: usize| 0 <= k < cons.len() && 0 <= d < 4
        ==> ((#[trigger] cons[k].compatible_with@[d]@.contains(j)) <==> ((j as int) < cons.len()
            && chunk_fits(cons[k].pattern@, cons[j as int].pattern@, cs, d)))
}

/// The compatibility lists of a constraint library are symmetric across
/// opposite directions: when pattern `j` appears in pattern `k`'s list for a
/// direction, pattern `k` appears in `j`'s list for the opposite direction.
pub proof fn lemma_compatibility_symmetric(
    cons: Seq<MapChunk>,
    cs: int,
    k: usize,
    j: usize,
    d: int,
)
    requires
        constraints_ok(cons, cs),
        (k as int) < cons.len(),
        0 <= d < 4,
        cons[k as int].compatible_with@[d]@.contains(j),
    ensures
        (j as int) < cons.len(),
        cons[j as int].compatible_with@[opposite(d)]@.contains(k),
{
    assert(chunk_fits(cons[k as int].pattern@, cons[j as int].pattern@, cs, d));
    lemma_fits_symmetric(cons[k as int].pattern@, cons[j as int].pattern@, cs, d);
    assert(chunk_fits(cons[j as int].pattern@, cons[k as int].pattern@, cs, opposite(d)));
}

} // verus!
