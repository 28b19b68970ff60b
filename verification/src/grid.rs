//! The shared mutable map representation: a fixed-size grid of tiles with
//! parallel per-tile metadata, indexed by `y * width + x`.

use vstd::prelude::*;
use crate::tile::TileType;

verus! {

/// Default map width used when a builder allocates its working grid.
pub const MAP_WIDTH: i32 = 80;

/// Default map height used when a builder allocates its working grid.
pub const MAP_HEIGHT: i32 = 43;

/// Upper bound on either map dimension; keeps all index arithmetic
/// comfortably inside `i32` and `usize`.
pub const MAX_DIM: i32 = 512;

/// A tile coordinate.
#[derive(Clone, Copy, PartialEq, Eq, Structural, Debug)]
pub struct Position {
    pub x: i32,
    pub y: i32,
}

impl Position {
    /// The origin coordinate (0, 0).
    pub fn origin() -> (p: Position)
        ensures
            p.x == 0 && p.y == 0,
    {
        Position { x: 0, y: 0 }
    }
}

/// The map: a `width` x `height` grid of tiles stored in a flat vector,
/// with parallel vectors for pathfinding and rendering metadata, stamped
/// with the dungeon depth it was built for.
pub struct Grid {
    pub width: i32,
    pub height: i32,
    pub tiles: Vec<TileType>,
    pub revealed_tiles: Vec<bool>,
    pub visible_tiles: Vec<bool>,
    pub blocked: Vec<bool>,
    pub depth: i32,
}

impl Grid {
    /// Structural well-formedness: positive bounded dimensions and all
    /// parallel vectors sized `width * height`.
    pub open spec fn inv(self) -> bool {
        &&& 3 <= self.width <= MAX_DIM
        &&& 3 <= self.height <= MAX_DIM
        &&& self.tiles@.len() == self.width * self.height
        &&& self.revealed_tiles@.len() == self.width * self.height
        &&& self.visible_tiles@.len() == self.width * self.height
        &&& self.blocked@.len() == self.width * self.height
    }

    /// Whether (x, y) names a tile of this map.
    pub open spec fn in_bounds(self, x: int, y: int) -> bool {
        0 <= x < self.width && 0 <= y < self.height
    }

    /// The flat index of coordinate (x, y).
    pub open spec fn idx(self, x: int, y: int) -> int {
        y * self.width + x
    }

    /// Every in-bounds coordinate maps to a valid index.
    pub proof fn lemma_idx_bounds(self, x: int, y: int)
        requires
            self.inv(),
            self.in_bounds(x, y),
        ensures
            0 <= self.idx(x, y) < self.tiles@.len(),
    {
        let w = self.width as int;
        let h = self.height as int;
        assert(y * w + x < h * w) by (nonlinear_arith)
            requires 0 <= x < w && 0 <= y < h
        ;
        assert(y * w + x >= 0) by (nonlinear_arith)
            requires 0 <= x && 0 <= y && w > 0
        ;
    }

    /// Two distinct in-bounds coordinates have distinct indices.
    pub proof fn lemma_idx_injective(self, x1: int, y1: int, x2: int, y2: int)
        requires
            self.inv(),
            self.in_bounds(x1, y1),
            self.in_bounds(x2, y2),
            self.idx(x1, y1) == self.idx(x2, y2),
        ensures
            x1 == x2 && y1 == y2,
    {
        let w = self.width as int;
        assert(y1 * w + x1 == y2 * w + x2 && 0 <= x1 < w && 0 <= x2 < w ==> y1 == y2 && x1 == x2)
            by (nonlinear_arith);
    }

    /// Allocate an all-Wall map of the given dimensions, stamped with `new_depth`.
    pub fn new(width: i32, height: i32, new_depth: i32) -> (m: Grid)
        requires
            3 <= width <= MAX_DIM,
            3 <= height <= MAX_DIM,
        ensures
            m.inv(),
            m.width == width,
            m.height == height,
            m.depth == new_depth,
            forall|i: int| 0 <= i < m.tiles@.len() ==> m.tiles@[i] == TileType::Wall,
            forall|i: int| 0 <= i < m.revealed_tiles@.len() ==> m.revealed_tiles@[i] == false,
            forall|i: int| 0 <= i < m.visible_tiles@.len() ==> m.visible_tiles@[i] == false,
    {
        proof {
            assert((width as int) * (height as int) <= MAX_DIM * MAX_DIM) by (nonlinear_arith)
                requires 0 < width as int <= MAX_DIM && 0 < height as int <= MAX_DIM
            ;
        }
        let count = (width as usize) * (height as usize);
        let mut tiles: Vec<TileType> = Vec::new();
        let mut revealed_tiles: Vec<bool> = Vec::new();
        let mut visible_tiles: Vec<bool> = Vec::new();
        let mut blocked: Vec<bool> = Vec::new();
        let mut i: usize = 0;
        while i < count
            invariant
                i <= count,
                tiles@.len() == i,
                revealed_tiles@.len() == i,
                visible_tiles@.len() == i,
                blocked@.len() == i,
                forall|k: int| 0 <= k < i ==> tiles@[k] == TileType::Wall,
                forall|k: int| 0 <= k < i ==> revealed_tiles@[k] == false,
                forall|k: int| 0 <= k < i ==> visible_tiles@[k] == false,
            decreases count - i,
        {
            tiles.push(TileType::Wall);
            revealed_tiles.push(false);
            visible_tiles.push(false);
            blocked.push(false);
            i = i + 1;
        }
        Grid { width, height, tiles, revealed_tiles, visible_tiles, blocked, depth: new_depth }
    }

    /// The flat index of (x, y); total for in-bounds coordinates.
    pub fn xy_idx(&self, x: i32, y: i32) -> (i: usize)
        requires
            self.inv(),
            self.in_bounds(x as int, y as int),
        ensures
            i == self.idx(x as int, y as int),
            i < self.tiles@.len(),
    {
        proof {
            self.lemma_idx_bounds(x as int, y as int);
            assert((y as int) * (self.width as int) <= (MAX_DIM - 1) * MAX_DIM)
                by (nonlinear_arith)
                requires 0 <= y as int <= MAX_DIM - 1 && 0 < self.width as int <= MAX_DIM
            ;
        }
        (y as usize) * (self.width as usize) + (x as usize)
    }

    /// Read the tile at (x, y).
    pub fn get_tile(&self, x: i32, y: i32) -> (t: TileType)
        requires
            self.inv(),
            self.in_bounds(x as int, y as int),
        ensures
            t == self.tiles@[self.idx(x as int, y as int)],
    {
        let i = self.xy_idx(x, y);
        self.tiles[i]
    }

    /// Write the tile at (x, y); nothing else changes.
    pub fn set_tile(&mut self, x: i32, y: i32, t: TileType)
        requires
            old(self).inv(),
            old(self).in_bounds(x as int, y as int),
        ensures
            final(self).inv(),
            final(self).tiles@ == old(self).tiles@.update(old(self).idx(x as int, y as int), t),
            final(self).width == old(self).width,
            final(self).height == old(self).height,
            final(self).depth == old(self).depth,
            final(self).revealed_tiles@ == old(self).revealed_tiles@,
            final(self).visible_tiles@ == old(self).visible_tiles@,
            final(self).blocked@ == old(self).blocked@,
    {
        let i = self.xy_idx(x, y);
        self.tiles.set(i, t);
    }

    /// Carve (x, y) to floor.
    pub fn set_floor(&mut self, x: i32, y: i32)
        requires
            old(self).inv(),
            old(self).in_bounds(x as int, y as int),
        ensures
            final(self).inv(),
            final(self).tiles@ == old(self).tiles@.update(
                old(self).idx(x as int, y as int),
                TileType::Floor,
            ),
            final(self).width == old(self).width,
            final(self).height == old(self).height,
            final(self).depth == old(self).depth,
            final(self).revealed_tiles@ == old(self).revealed_tiles@,
            final(self).visible_tiles@ == old(self).visible_tiles@,
            final(self).blocked@ == old(self).blocked@,
    {
        self.set_tile(x, y, TileType::Floor);
    }

    /// Set (x, y) to wall.
    pub fn set_wall(&mut self, x: i32, y: i32)
        requires
            old(self).inv(),
            old(self).in_bounds(x as int, y as int),
        ensures
            final(self).inv(),
            final(self).tiles@ == old(self).tiles@.update(
                old(self).idx(x as int, y as int),
                TileType::Wall,
            ),
            final(self).width == old(self).width,
            final(self).height == old(self).height,
            final(self).depth == old(self).depth,
            final(self).revealed_tiles@ == old(self).revealed_tiles@,
            final(self).visible_tiles@ == old(self).visible_tiles@,
            final(self).blocked@ == old(self).blocked@,
    {
        self.set_tile(x, y, TileType::Wall);
    }

    /// Recompute the blocked bitmap from the tile kinds: a tile blocks
    /// movement exactly when it is a wall.
    pub fn populate_blocked(&mut self)
        requires
            old(self).inv(),
        ensures
            final(self).inv(),
            final(self).blocked@.len() == old(self).blocked@.len(),
            forall|i: int| 0 <= i < final(self).blocked@.len()
                ==> final(self).blocked@[i] == (old(self).tiles@[i] == TileType::Wall),
            final(self).tiles@ == old(self).tiles@,
            final(self).width == old(self).width,
            final(self).height == old(self).height,
            final(self).depth == old(self).depth,
            final(self).revealed_tiles@ == old(self).revealed_tiles@,
            final(self).visible_tiles@ == old(self).visible_tiles@,
    {
        let n = self.tiles.len();
        let mut i: usize = 0;
        while i < n
            invariant
                self.inv(),
                n == self.tiles@.len(),
                i <= n,
                self.blocked@.len() == old(self).blocked@.len(),
                self.tiles@ == old(self).tiles@,
                self.width == old(self).width,
                self.height == old(self).height,
                self.depth == old(self).depth,
                self.revealed_tiles@ == old(self).revealed_tiles@,
                self.visible_tiles@ == old(self).visible_tiles@,
                forall|k: int| 0 <= k < i
                    ==> self.blocked@[k] == (old(self).tiles@[k] == TileType::Wall),
                forall|k: int| i <= k < n ==> self.blocked@[k] == old(self).blocked@[k],
            decreases n - i,
        {
            let is_wall = match self.tiles[i] {
                TileType::Wall => true,
                _ => false,
            };
            self.blocked.set(i, is_wall);
            i = i + 1;
        }
    }

    /// Count the floor tiles of the map.
    pub fn count_floor(&self) -> (c: usize)
        requires
            self.inv(),
        ensures
            c == count_floor_tiles(self.tiles@),
            c <= self.tiles@.len(),
    {
        let n = self.tiles.len();
        let mut c: usize = 0;
        let mut i: usize = 0;
        while i < n
            invariant
                n == self.tiles@.len(),
                i <= n,
                c == count_floor_tiles(self.tiles@.take(i as int)),
                c <= i,
            decreases n - i,
        {
            proof {
                assert(self.tiles@.take(i + 1 as int).drop_last() =~= self.tiles@.take(i as int));
            }
            let is_floor = match self.tiles[i] {
                TileType::Floor => true,
                _ => false,
            };
            if is_floor {
                c = c + 1;
            }
            i = i + 1;
        }
        proof {
            assert(self.tiles@.take(n as int) =~= self.tiles@);
        }
        c
    }
}

/// The number of Floor entries of a tile sequence.
pub open spec fn count_floor_tiles(s: Seq<TileType>) -> nat
    decreases s.len(),
{
    if s.len() == 0 {
        0
    } else {
        count_floor_tiles(s.drop_last()) + if s.last() == TileType::Floor { 1nat } else { 0nat }
    }
}

impl Clone for Grid {
    /// Deep copy; every field keeps its value.
    fn clone(&self) -> (m: Self)
        ensures
            m.width == self.width,
            m.height == self.height,
            m.depth == self.depth,
            m.tiles@ == self.tiles@,
            m.revealed_tiles@ == self.revealed_tiles@,
            m.visible_tiles@ == self.visible_tiles@,
            m.blocked@ == self.blocked@,
    {
        let m = Grid {
            width: self.width,
            height: self.height,
            tiles: self.tiles.clone(),
            revealed_tiles: self.revealed_tiles.clone(),
            visible_tiles: self.visible_tiles.clone(),
            blocked: self.blocked.clone(),
            depth: self.depth,
        };
        proof {
            assert(m.tiles@ =~= self.tiles@);
            assert(m.revealed_tiles@ =~= self.revealed_tiles@);
            assert(m.visible_tiles@ =~= self.visible_tiles@);
            assert(m.blocked@ =~= self.blocked@);
        }
        m
    }
}

} // verus!
