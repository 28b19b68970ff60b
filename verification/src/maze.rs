//! The maze generator: a randomized depth-first spanning-tree carve over a
//! logical half-resolution cell grid, where each logical cell maps to one map
//! tile with wall tiles between cells, and the walls between adjacent visited
//! cells are knocked down as tree edges are added.

use vstd::prelude::*;
use crate::grid::{Grid, Position, MAP_WIDTH, MAP_HEIGHT, MAX_DIM};
use crate::rng::RandomStream;
use crate::tile::{walkable, TileType};
use crate::reach::{no_stairs, fully_connected, single_stairs};
use crate::connectivity::finalize_exit;
use crate::regions::{generate_voronoi_spawn_regions, regions_wf};
use crate::snapshot::build_snapshot;

verus! {

/// One logical maze cell: its grid coordinates, which of its four walls
/// still stand (top, right, bottom, left), and whether the carve visited it.
#[derive(PartialEq, Eq, Structural, Copy, Clone, Debug)]
pub struct Cell {
    pub row: i32,
    pub column: i32,
    pub wall_top: bool,
    pub wall_right: bool,
    pub wall_bottom: bool,
    pub wall_left: bool,
    pub visited: bool,
}

impl Cell {
    /// A fresh unvisited cell with all four walls standing.
    pub fn new(row: i32, column: i32) -> (c: Cell)
        ensures
            c.row == row,
            c.column == column,
            c.wall_top && c.wall_right && c.wall_bottom && c.wall_left,
            !c.visited,
    {
        Cell {
            row,
            column,
            wall_top: true,
            wall_right: true,
            wall_bottom: true,
            wall_left: true,
            visited: false,
        }
    }

    /// Knock down the facing walls between this cell and an adjacent one:
    /// exactly the pair of walls on the shared edge falls, and a call on a
    /// non-adjacent pair changes nothing.
    pub fn remove_walls(&mut self, next: &mut Cell)
        requires
            0 <= old(self).row <= 100000,
            0 <= old(self).column <= 100000,
            0 <= old(next).row <= 100000,
            0 <= old(next).column <= 100000,
        ensures
            final(self).row == old(self).row,
            final(self).column == old(self).column,
            final(self).visited == old(self).visited,
            final(next).row == old(next).row,
            final(next).column == old(next).column,
            final(next).visited == old(next).visited,
            ({
                let dx = old(self).column - old(next).column;
                let dy = old(self).row - old(next).row;
                &&& final(self).wall_left == (old(self).wall_left && dx != 1)
                &&& final(next).wall_right == (old(next).wall_right && dx != 1)
                &&& final(self).wall_right == (old(self).wall_right && dx != -1)
                &&& final(next).wall_left == (old(next).wall_left && dx != -1)
                &&& final(self).wall_top == (old(self).wall_top
                    && !(dx != 1 && dx != -1 && dy == 1))
                &&& final(next).wall_bottom == (old(next).wall_bottom
                    && !(dx != 1 && dx != -1 && dy == 1))
                &&& final(self).wall_bottom == (old(self).wall_bottom
                    && !(dx != 1 && dx != -1 && dy == -1))
                &&& final(next).wall_top == (old(next).wall_top
                    && !(dx != 1 && dx != -1 && dy == -1))
            }),
    {
        let x = self.column - next.column;
        let y = self.row - next.row;
        if x == 1 {
            self.wall_left = false;
            next.wall_right = false;
        } else if x == -1 {
            self.wall_right = false;
            next.wall_left = false;
        } else if y == 1 {
            self.wall_top = false;
            next.wall_bottom = false;
        } else if y == -1 {
            self.wall_bottom = false;
            next.wall_top = false;
        }
    }
}

/// The cell stored at a grid position carries that position's coordinates.
proof fn lemma_cell_coords(g: MazeGrid, r: int, c: int)
    requires
        g.inv(),
        0 <= r < g.height,
        0 <= c < g.width,
    ensures
        0 <= r * (g.width as int) + c < g.cells@.len(),
        g.cells@[r * (g.width as int) + c].row == r,
        g.cells@[r * (g.width as int) + c].column == c,
{
    let w = g.width as int;
    assert(0 <= r * w + c && r * w + c < w * (g.height as int)
        && (r * w + c) / w == r && (r * w + c) % w == c) by (nonlinear_arith)
        requires 0 <= c < w && 0 <= r < g.height as int
    ;
    assert(g.cells@.len() == w * (g.height as int)) by (nonlinear_arith)
        requires
            g.cells@.len() == g.width * g.height,
            w == g.width as int,
    ;
}

/// Stamp one logical cell into the tile map: the cell's own tile and the
/// passage tile behind each knocked wall become floor, and nothing else
/// changes.
fn stamp_cell(map: &mut Grid, cell: Cell, x: i32, y: i32)
    requires
        old(map).inv(),
        2 <= x,
        x + 1 < old(map).width,
        2 <= y,
        y + 1 < old(map).height,
    ensures
        final(map).inv(),
        final(map).width == old(map).width,
        final(map).height == old(map).height,
        final(map).depth == old(map).depth,
        final(map).tiles@.len() == old(map).tiles@.len(),
        forall|i: int| 0 <= i < final(map).tiles@.len()
            ==> final(map).tiles@[i] == old(map).tiles@[i]
                || #[trigger] final(map).tiles@[i] == TileType::Floor,
        forall|a: int, b: int| old(map).in_bounds(a, b)
            ==> final(map).tiles@[#[trigger] old(map).idx(a, b)] == (
                if (a == x && b == y)
                    || (!cell.wall_top && a == x && b == y - 1)
                    || (!cell.wall_right && a == x + 1 && b == y)
                    || (!cell.wall_bottom && a == x && b == y + 1)
                    || (!cell.wall_left && a == x - 1 && b == y) {
                    TileType::Floor
                } else {
                    old(map).tiles@[old(map).idx(a, b)]
                }),
{
    map.set_floor(x, y);
    if !cell.wall_top {
        map.set_floor(x, y - 1);
    }
    if !cell.wall_right {
        map.set_floor(x + 1, y);
    }
    if !cell.wall_bottom {
        map.set_floor(x, y + 1);
    }
    if !cell.wall_left {
        map.set_floor(x - 1, y);
    }
    proof {
        old(map).lemma_idx_bounds(x as int, y as int);
        old(map).lemma_idx_bounds(x as int, y as int - 1);
        old(map).lemma_idx_bounds(x as int + 1, y as int);
        old(map).lemma_idx_bounds(x as int, y as int + 1);
        old(map).lemma_idx_bounds(x as int - 1, y as int);
        assert forall|a: int, b: int| old(map).in_bounds(a, b)
            implies map.tiles@[#[trigger] old(map).idx(a, b)] == (
                if (a == x as int && b == y as int)
                    || (!cell.wall_top && a == x as int && b == y as int - 1)
                    || (!cell.wall_right && a == x as int + 1 && b == y as int)
                    || (!cell.wall_bottom && a == x as int && b == y as int + 1)
                    || (!cell.wall_left && a == x as int - 1 && b == y as int) {
                    TileType::Floor
                } else {
                    old(map).tiles@[old(map).idx(a, b)]
                }) by {
            old(map).lemma_idx_bounds(a, b);
            if old(map).idx(a, b) == old(map).idx(x as int, y as int) {
                old(map).lemma_idx_injective(a, b, x as int, y as int);
            }
            if old(map).idx(a, b) == old(map).idx(x as int, y as int - 1) {
                old(map).lemma_idx_injective(a, b, x as int, y as int - 1);
            }
            if old(map).idx(a, b) == old(map).idx(x as int + 1, y as int) {
                old(map).lemma_idx_injective(a, b, x as int + 1, y as int);
            }
            if old(map).idx(a, b) == old(map).idx(x as int, y as int + 1) {
                old(map).lemma_idx_injective(a, b, x as int, y as int + 1);
            }
            if old(map).idx(a, b) == old(map).idx(x as int - 1, y as int) {
                old(map).lemma_idx_injective(a, b, x as int - 1, y as int);
            }
        }
    }
}

/// The arena of logical cells the carve works over, with the backtracking
/// stack and the current cell index.
pub struct MazeGrid {
    pub width: i32,
    pub height: i32,
    pub cells: Vec<Cell>,
    pub backtrace: Vec<usize>,
    pub current: usize,
}

impl MazeGrid {
    /// The cell arena matches the logical dimensions and every recorded
    /// index is a real cell.
    pub open spec fn inv(&self) -> bool {
        &&& 1 <= self.width <= 256
        &&& 1 <= self.height <= 256
        &&& self.cells@.len() == self.width * self.height
        &&& self.current < self.cells@.len()
        &&& forall|k: int| 0 <= k < self.backtrace@.len()
            ==> (#[trigger] self.backtrace@[k]) < self.cells@.len()
        &&& forall|i: int| 0 <= i < self.cells@.len()
            ==> (#[trigger] self.cells@[i]).row == i / (self.width as int)
                && self.cells@[i].column == i % (self.width as int)
    }

    /// A fresh all-walls unvisited cell grid.
    pub fn new(width: i32, height: i32) -> (g: MazeGrid)
        requires
            1 <= width <= 256,
            1 <= height <= 256,
        ensures
            g.inv(),
            g.width == width,
            g.height == height,
    {
        proof {
            assert(width * height <= 256 * 256) by (nonlinear_arith)
                requires 1 <= width <= 256 && 1 <= height <= 256
            ;
        }
        let mut cells: Vec<Cell> = Vec::new();
        let mut row: i32 = 0;
        while row < height
            invariant
                1 <= width <= 256,
                1 <= height <= 256,
                0 <= row <= height,
                cells@.len() == row * width,
                forall|i: int| 0 <= i < cells@.len()
                    ==> (#[trigger] cells@[i]).row == i / (width as int)
                        && cells@[i].column == i % (width as int),
            decreases height - row,
        {
            let mut column: i32 = 0;
            while column < width
                invariant
                    1 <= width <= 256,
                    1 <= height <= 256,
                    0 <= row < height,
                    0 <= column <= width,
                    cells@.len() == row * width + column,
                    forall|i: int| 0 <= i < cells@.len()
                        ==> (#[trigger] cells@[i]).row == i / (width as int)
                            && cells@[i].column == i % (width as int),
                decreases width - column,
            {
                cells.push(Cell::new(row, column));
                proof {
                    assert((row as int * width + column) / (width as int) == row
                        && (row as int * width + column) % (width as int) == column)
                        by (nonlinear_arith)
                        requires 0 <= column < width && 0 <= row
                    ;
                }
                column = column + 1;
            }
            proof {
                assert((row + 1) * width == row * width + width) by (nonlinear_arith);
            }
            row = row + 1;
        }
        proof {
            assert((height as int) * (width as int) == (width as int) * (height as int)
                && (width as int) * (height as int) >= 1) by (nonlinear_arith)
                requires width >= 1 && height >= 1
            ;
        }
        MazeGrid { width, height, cells, backtrace: Vec::new(), current: 0 }
    }

    /// The flat index of a cell, or -1 when (row, column) is off the grid.
    pub fn calculate_index(&self, row: i32, column: i32) -> (i: i32)
        requires
            self.inv(),
        ensures
            i == -1 || (0 <= i < self.cells@.len() && i == row * self.width + column
                && 0 <= row < self.height && 0 <= column < self.width),
            (0 <= row < self.height && 0 <= column < self.width)
                ==> i == row * self.width + column,
    {
        if row < 0 || column < 0 || column > self.width - 1 || row > self.height - 1 {
            -1
        } else {
            proof {
                assert(0 <= row * self.width + column < self.width * self.height
                    && self.width * self.height <= 256 * 256) by (nonlinear_arith)
                    requires
                        0 <= column < self.width,
                        0 <= row < self.height,
                        self.width <= 256,
                        self.height <= 256,
                ;
            }
            row * self.width + column
        }
    }

    /// Cell `j` lies one grid step from cell `i`.
    pub open spec fn cells_adjacent(&self, i: int, j: int) -> bool {
        let ri = self.cells@[i].row as int;
        let ci = self.cells@[i].column as int;
        let rj = self.cells@[j].row as int;
        let cj = self.cells@[j].column as int;
        ||| (rj == ri - 1 && cj == ci)
        ||| (rj == ri + 1 && cj == ci)
        ||| (rj == ri && cj == ci - 1)
        ||| (rj == ri && cj == ci + 1)
    }

    /// The unvisited 4-neighbors of the current cell: every returned index is
    /// an unvisited adjacent cell, and the list is empty exactly when every
    /// adjacent cell is already visited.
    pub fn get_available_neighbors(&self) -> (r: Vec<usize>)
        requires
            self.inv(),
        ensures
            forall|k: int| 0 <= k < r@.len() ==> (#[trigger] r@[k]) < self.cells@.len()
                && !self.cells@[r@[k] as int].visited
                && self.cells_adjacent(self.current as int, r@[k] as int),
            r@.len() <= 4,
            (r@.len() == 0) <==> (forall|j: int| 0 <= j < self.cells@.len()
                && #[trigger] self.cells_adjacent(self.current as int, j)
                ==> self.cells@[j].visited),
    {
        let mut neighbors: Vec<usize> = Vec::new();
        let current_row = self.cells[self.current].row;
        let current_column = self.cells[self.current].column;

        proof {
            assert(0 <= current_row < self.height && 0 <= current_column < self.width)
                by (nonlinear_arith)
                requires
                    current_row == self.current as int / self.width as int,
                    current_column == self.current as int % self.width as int,
                    0 <= (self.current as int) < self.width * self.height,
                    1 <= self.width,
                    1 <= self.height,
            ;
        }
        let i0 = self.calculate_index(current_row - 1, current_column);
        let i1 = self.calculate_index(current_row, current_column + 1);
        let i2 = self.calculate_index(current_row + 1, current_column);
        let i3 = self.calculate_index(current_row, current_column - 1);

        proof {
            if i0 != -1 {
                lemma_cell_coords(*self, current_row as int - 1, current_column as int);
            }
            if i1 != -1 {
                lemma_cell_coords(*self, current_row as int, current_column as int + 1);
            }
            if i2 != -1 {
                lemma_cell_coords(*self, current_row as int + 1, current_column as int);
            }
            if i3 != -1 {
                lemma_cell_coords(*self, current_row as int, current_column as int - 1);
            }
        }
        if i0 != -1 && !self.cells[i0 as usize].visited {
            neighbors.push(i0 as usize);
        }
        if i1 != -1 && !self.cells[i1 as usize].visited {
            neighbors.push(i1 as usize);
        }
        if i2 != -1 && !self.cells[i2 as usize].visited {
            neighbors.push(i2 as usize);
        }
        if i3 != -1 && !self.cells[i3 as usize].visited {
            neighbors.push(i3 as usize);
        }
        proof {
            if neighbors@.len() > 0 {
                // the first entry itself witnesses an unvisited neighbor
                assert(neighbors@[0] < self.cells@.len()
                    && !self.cells@[neighbors@[0] as int].visited
                    && self.cells_adjacent(self.current as int, neighbors@[0] as int));
            }
            // an adjacent cell's coordinates name one of the four probes, so
            // an empty result means every adjacent cell was visited
            if neighbors@.len() == 0 {
                assert forall|j: int| 0 <= j < self.cells@.len()
                    && #[trigger] self.cells_adjacent(self.current as int, j)
                    implies self.cells@[j].visited by {
                    let w = self.width as int;
                    let rj = self.cells@[j].row as int;
                    let cj = self.cells@[j].column as int;
                    vstd::arithmetic::div_mod::lemma_fundamental_div_mod(j, w);
                    vstd::arithmetic::div_mod::lemma_mod_bound(j, w);
                    assert(j == rj * w + cj) by (nonlinear_arith)
                        requires rj == j / w && cj == j % w && j == w * (j / w) + j % w
                    ;
                    assert(0 <= rj && rj < self.height as int) by (nonlinear_arith)
                        requires
                            w > 0 && 0 <= j
                                && j < w * (self.height as int) && rj == j / w,
                    ;
                    assert(self.cells@.len() == w * (self.height as int))
                        by (nonlinear_arith)
                        requires
                            self.cells@.len() == self.width * self.height,
                            w == self.width as int,
                    ;
                }
            }
        }
        neighbors
    }

    /// A random unvisited neighbor of the current cell: None exactly when
    /// every adjacent cell is already visited, else one of the unvisited
    /// adjacent cells, picked by a named draw when several remain.
    pub fn find_next_cell(&self, rng: &mut RandomStream) -> (r: Option<usize>)
        requires
            self.inv(),
        ensures
            r is Some ==> (r->Some_0 as int) < self.cells@.len()
                && !self.cells@[r->Some_0 as int].visited
                && self.cells_adjacent(self.current as int, r->Some_0 as int),
            (r is None) <==> (forall|j: int| 0 <= j < self.cells@.len()
                && #[trigger] self.cells_adjacent(self.current as int, j)
                ==> self.cells@[j].visited),
    {
        let neighbors = self.get_available_neighbors();
        if neighbors.len() == 0 {
            Option::None
        } else if neighbors.len() == 1 {
            Option::Some(neighbors[0])
        } else {
            let pick = (rng.roll_dice(1, neighbors.len() as i32) - 1) as usize;
            Option::Some(neighbors[pick])
        }
    }

    /// Run the randomized backtracker until every reachable cell is visited
    /// or the step budget runs out.
    pub fn generate_maze(&mut self, rng: &mut RandomStream)
        requires
            old(self).inv(),
        ensures
            final(self).inv(),
            final(self).width == old(self).width,
            final(self).height == old(self).height,
    {
        let mut fuel: i32 = 1000000;
        while fuel > 0
            invariant
                self.inv(),
                self.width == old(self).width,
                self.height == old(self).height,
            decreases fuel,
        {
            fuel = fuel - 1;
            let cur = self.current;
            let mut c = self.cells[cur];
            c.visited = true;
            self.cells.set(cur, c);

            let next = self.find_next_cell(rng);
            match next {
                Option::None => {
                    if self.backtrace.len() > 0 {
                        self.current = self.backtrace[0];
                        self.backtrace.remove(0);
                    } else {
                        return ;
                    }
                },
                Option::Some(next_idx) => {
                    let mut nc = self.cells[next_idx];
                    nc.visited = true;
                    self.backtrace.push(cur);
                    // two explicit arena lookups stand in for mutating two
                    // cells at once; on the same index the second write wins
                    proof {
                        assert(0 <= self.cells@[cur as int].row <= 256
                            && 0 <= self.cells@[cur as int].column <= 256
                            && 0 <= self.cells@[next_idx as int].row <= 256
                            && 0 <= self.cells@[next_idx as int].column <= 256)
                            by (nonlinear_arith)
                            requires
                                self.cells@[cur as int].row
                                    == cur as int / self.width as int,
                                self.cells@[cur as int].column
                                    == cur as int % self.width as int,
                                self.cells@[next_idx as int].row
                                    == next_idx as int / self.width as int,
                                self.cells@[next_idx as int].column
                                    == next_idx as int % self.width as int,
                                0 <= (cur as int) < self.width * self.height,
                                0 <= (next_idx as int) < self.width * self.height,
                                1 <= self.width <= 256,
                                1 <= self.height <= 256,
                        ;
                    }
                    let mut c2 = self.cells[cur];
                    c2.remove_walls(&mut nc);
                    self.cells.set(cur, c2);
                    self.cells.set(next_idx, nc);
                    self.current = next_idx;
                },
            }
        }
    }

    /// (a, b) is a tile the maze mirror carves: some cell's own tile, or the
    /// passage tile its knocked wall opens.
    pub open spec fn maze_floor_pos(&self, a: int, b: int) -> bool {
        exists|k: int| 0 <= k < self.cells@.len() && ({
            let cell = #[trigger] self.cells@[k];
            let x = (cell.column as int + 1) * 2;
            let y = (cell.row as int + 1) * 2;
            ||| (a == x && b == y)
            ||| (!cell.wall_top && a == x && b == y - 1)
            ||| (!cell.wall_right && a == x + 1 && b == y)
            ||| (!cell.wall_bottom && a == x && b == y + 1)
            ||| (!cell.wall_left && a == x - 1 && b == y)
        })
    }

    /// Mirror the logical cell grid into the tile map: each cell becomes a
    /// floor tile at twice its coordinates (offset one), each knocked wall
    /// opens the tile between the two cells, and every other tile is wall.
    #[verifier::rlimit(100)]
    pub fn copy_to_map(&self, map: &mut Grid)
        requires
            self.inv(),
            old(map).inv(),
            old(map).width >= 2 * self.width + 2,
            old(map).height >= 2 * self.height + 2,
        ensures
            final(map).inv(),
            final(map).width == old(map).width,
            final(map).height == old(map).height,
            final(map).depth == old(map).depth,
            no_stairs(*final(map)),
            final(map).tiles@[final(map).idx(2, 2)] == TileType::Floor,
            forall|k: int| 0 <= k < self.cells@.len() ==> ({
                let cell = #[trigger] self.cells@[k];
                let x = (cell.column as int + 1) * 2;
                let y = (cell.row as int + 1) * 2;
                &&& final(map).tiles@[final(map).idx(x, y)] == TileType::Floor
                &&& (!cell.wall_top
                    ==> final(map).tiles@[final(map).idx(x, y - 1)] == TileType::Floor)
                &&& (!cell.wall_right
                    ==> final(map).tiles@[final(map).idx(x + 1, y)] == TileType::Floor)
                &&& (!cell.wall_bottom
                    ==> final(map).tiles@[final(map).idx(x, y + 1)] == TileType::Floor)
                &&& (!cell.wall_left
                    ==> final(map).tiles@[final(map).idx(x - 1, y)] == TileType::Floor)
            }),
            // and nothing else is carved: every other tile ends as wall
            forall|a: int, b: int| old(map).in_bounds(a, b)
                && final(map).tiles@[#[trigger] old(map).idx(a, b)] == TileType::Floor
                ==> self.maze_floor_pos(a, b),
    {
        // reset to all wall
        let n = map.tiles.len();
        let mut i: usize = 0;
        while i < n
            invariant
                map.inv(),
                map.width == old(map).width,
                map.height == old(map).height,
                map.depth == old(map).depth,
                n == map.tiles@.len(),
                i <= n,
                forall|k: int| 0 <= k < i ==> #[trigger] map.tiles@[k] == TileType::Wall,
            decreases n - i,
        {
            map.tiles.set(i, TileType::Wall);
            i = i + 1;
        }

        proof {
            // the reset left no floor anywhere
            assert forall|a: int, b: int| old(map).in_bounds(a, b)
                implies map.tiles@[#[trigger] old(map).idx(a, b)] == TileType::Wall by {
                old(map).lemma_idx_bounds(a, b);
            }
        }
        let ncells = self.cells.len();
        let mut k: usize = 0;
        while k < ncells
            invariant
                self.inv(),
                old(map).inv(),
                map.inv(),
                map.width == old(map).width,
                map.height == old(map).height,
                map.depth == old(map).depth,
                map.width >= 2 * self.width + 2,
                map.height >= 2 * self.height + 2,
                ncells == self.cells@.len(),
                k <= ncells,
                no_stairs(*map),
                k > 0 ==> map.tiles@[map.idx(2, 2)] == TileType::Floor,
                forall|a: int, b: int| old(map).in_bounds(a, b)
                    && map.tiles@[#[trigger] old(map).idx(a, b)] == TileType::Floor
                    ==> self.maze_floor_pos(a, b),
                forall|k2: int| 0 <= k2 < k ==> ({
                    let cell = #[trigger] self.cells@[k2];
                    let x = (cell.column as int + 1) * 2;
                    let y = (cell.row as int + 1) * 2;
                    &&& map.tiles@[map.idx(x, y)] == TileType::Floor
                    &&& (!cell.wall_top
                        ==> map.tiles@[map.idx(x, y - 1)] == TileType::Floor)
                    &&& (!cell.wall_right
                        ==> map.tiles@[map.idx(x + 1, y)] == TileType::Floor)
                    &&& (!cell.wall_bottom
                        ==> map.tiles@[map.idx(x, y + 1)] == TileType::Floor)
                    &&& (!cell.wall_left
                        ==> map.tiles@[map.idx(x - 1, y)] == TileType::Floor)
                }),
            decreases ncells - k,
        {
            let cell = self.cells[k];
            proof {
                assert(0 <= cell.row < self.height && 0 <= cell.column < self.width)
                    by (nonlinear_arith)
                    requires
                        cell.row == k as int / self.width as int,
                        cell.column == k as int % self.width as int,
                        0 <= (k as int) < self.width * self.height,
                        1 <= self.width,
                        1 <= self.height,
                ;
            }
            let x = (cell.column + 1) * 2;
            let y = (cell.row + 1) * 2;
            let ghost pre = *map;
            stamp_cell(map, cell, x, y);
            proof {
                map.lemma_idx_bounds(2, 2);
                // any floor tile was floor already or is one of the five
                // positions this cell carves
                assert forall|a: int, b: int| old(map).in_bounds(a, b)
                    && map.tiles@[#[trigger] old(map).idx(a, b)] == TileType::Floor
                    implies self.maze_floor_pos(a, b) by {
                    old(map).lemma_idx_bounds(a, b);
                    assert(pre.in_bounds(a, b) == old(map).in_bounds(a, b));
                    assert(pre.idx(a, b) == old(map).idx(a, b));
                    if pre.tiles@[old(map).idx(a, b)] != TileType::Floor {
                        assert(0 <= k < self.cells@.len() && self.cells@[k as int] == cell);
                    }
                }
                // earlier cells' positions stay floor, and this cell's are
                // floor now
                assert forall|k2: int| 0 <= k2 < k as int + 1 implies ({
                    let cell2 = #[trigger] self.cells@[k2];
                    let x2 = (cell2.column as int + 1) * 2;
                    let y2 = (cell2.row as int + 1) * 2;
                    &&& map.tiles@[map.idx(x2, y2)] == TileType::Floor
                    &&& (!cell2.wall_top
                        ==> map.tiles@[map.idx(x2, y2 - 1)] == TileType::Floor)
                    &&& (!cell2.wall_right
                        ==> map.tiles@[map.idx(x2 + 1, y2)] == TileType::Floor)
                    &&& (!cell2.wall_bottom
                        ==> map.tiles@[map.idx(x2, y2 + 1)] == TileType::Floor)
                    &&& (!cell2.wall_left
                        ==> map.tiles@[map.idx(x2 - 1, y2)] == TileType::Floor)
                }) by {
                    let cell2 = self.cells@[k2];
                    assert(0 <= cell2.row < self.height && 0 <= cell2.column < self.width)
                        by (nonlinear_arith)
                        requires
                            cell2.row == k2 / self.width as int,
                            cell2.column == k2 % self.width as int,
                            0 <= k2 < self.width * self.height,
                            1 <= self.width,
                            1 <= self.height,
                    ;
                    let x2 = (cell2.column as int + 1) * 2;
                    let y2 = (cell2.row as int + 1) * 2;
                    map.lemma_idx_bounds(x2, y2);
                    map.lemma_idx_bounds(x2, y2 - 1);
                    map.lemma_idx_bounds(x2 + 1, y2);
                    map.lemma_idx_bounds(x2, y2 + 1);
                    map.lemma_idx_bounds(x2 - 1, y2);
                }
                if k == 0 {
                    assert(x == 2 && y == 2) by (nonlinear_arith)
                        requires
                            cell.row == 0int / self.width as int,
                            cell.column == 0int % self.width as int,
                            x == (cell.column + 1) * 2,
                            y == (cell.row + 1) * 2,
                            1 <= self.width,
                    ;
                }
            }
            k = k + 1;
        }
    }
}

pub struct MazeBuilder {
    pub map: Grid,
    pub starting_position: Position,
    pub depth: i32,
    pub history: Vec<Grid>,
    pub noise_areas: Vec<(i32, Vec<usize>)>,
    pub show_snapshots: bool,
}

impl MazeBuilder {
    /// The builder's map is well-formed and large enough for the logical
    /// half-resolution cell grid.
    pub open spec fn wf(&self) -> bool {
        &&& self.map.inv()
        &&& self.map.width >= 8
        &&& self.map.height >= 8
    }

    /// A builder over the default-sized all-wall map for the given depth.
    pub fn new(new_depth: i32) -> (r: MazeBuilder)
        ensures
            r.wf(),
            r.map.width == MAP_WIDTH,
            r.map.height == MAP_HEIGHT,
            r.map.depth == new_depth,
            r.depth == new_depth,
            no_stairs(r.map),
    {
        MazeBuilder {
            map: Grid::new(MAP_WIDTH, MAP_HEIGHT, new_depth),
            starting_position: Position { x: 0, y: 0 },
            depth: new_depth,
            history: Vec::new(),
            noise_areas: Vec::new(),
            show_snapshots: false,
        }
    }

    /// Capture a visualization frame if the visualizer is enabled.
    pub fn take_snapshot(&mut self)
        requires
            old(self).wf(),
        ensures
            final(self).wf(),
            final(self).map == old(self).map,
            final(self).starting_position == old(self).starting_position,
            final(self).depth == old(self).depth,
            final(self).show_snapshots == old(self).show_snapshots,
    {
        match build_snapshot(&self.map, self.show_snapshots) {
            Option::Some(t) => {
                self.history.push(t);
            },
            Option::None => {},
        }
    }

    /// Build the maze: carve the spanning tree over the half-resolution cell
    /// grid, mirror it into the tile map, then repair connectivity and stamp
    /// the exit. Afterwards every walkable tile is reachable from the
    /// starting position and exactly one StairsDown tile exists.
    pub fn build(&mut self, rng: &mut RandomStream)
        requires
            old(self).wf(),
        ensures
            final(self).wf(),
            final(self).map.width == old(self).map.width,
            final(self).map.height == old(self).map.height,
            final(self).map.depth == old(self).map.depth,
            final(self).depth == old(self).depth,
            fully_connected(
                final(self).map,
                final(self).starting_position.x as int,
                final(self).starting_position.y as int,
            ),
            single_stairs(final(self).map),
            // the carve anchors the start at the first logical cell's tile
            final(self).starting_position == (Position { x: 2, y: 2 }),
            final(self).map.in_bounds(
                final(self).starting_position.x as int,
                final(self).starting_position.y as int,
            ),
            walkable(final(self).map.tiles@[final(self).map.idx(
                final(self).starting_position.x as int,
                final(self).starting_position.y as int,
            )]),
            regions_wf(final(self).noise_areas@, final(self).map),
    {
        let gw = (self.map.width / 2) - 2;
        let gh = (self.map.height / 2) - 2;
        let mut grid = MazeGrid::new(gw, gh);
        grid.generate_maze(rng);
        grid.copy_to_map(&mut self.map);
        self.take_snapshot();

        self.starting_position = Position { x: 2, y: 2 };
        let _exit = finalize_exit(&mut self.map, 2, 2);
        self.take_snapshot();

        self.noise_areas = generate_voronoi_spawn_regions(&self.map, rng);
    }

    /// A copy of the finished map.
    pub fn get_map(&self) -> (m: Grid)
        ensures
            m.width == self.map.width,
            m.height == self.map.height,
            m.depth == self.map.depth,
            m.tiles@ == self.map.tiles@,
    {
        self.map.clone()
    }

    /// The chosen starting position.
    pub fn get_starting_position(&self) -> (p: Position)
        ensures
            p == self.starting_position,
    {
        self.starting_position
    }
}

} // verus!
