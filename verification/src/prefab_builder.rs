//! The prefab generator: stamp a hand-drawn ASCII template onto the map,
//! mapping characters to tile kinds, the starting position, and named spawn
//! hints. When the template names no start, or an external cell-art resource
//! was not supplied, the map falls back to connectivity repair.

use vstd::prelude::*;
use crate::grid::{Grid, Position, MAP_WIDTH, MAP_HEIGHT, MAX_DIM};
use crate::rng::RandomStream;
use crate::tile::{walkable, TileType};
use crate::reach::no_stairs;
use crate::connectivity::{clear_stairs, ensure_floor_exists, find_starting_floor, finalize_exit};
use crate::prefab_levels::{PrefabLevel, vault_level};
use crate::snapshot::build_snapshot;
use vstd::string::StrSliceExecFns;

verus! {

/// Where the prefab's content comes from: an external cell-art resource by
/// path, or a built-in ASCII template.
#[derive(Copy, Clone)]
pub enum PrefabMode {
    RexLevel { template: &'static str },
    Constant { level: PrefabLevel },
}

pub struct PrefabBuilder {
    pub map: Grid,
    pub starting_position: Position,
    pub depth: i32,
    pub history: Vec<Grid>,
    pub mode: PrefabMode,
    pub spawns: Vec<(usize, String)>,
    pub show_snapshots: bool,
}

impl PrefabBuilder {
    /// The builder's map is well-formed.
    pub open spec fn wf(&self) -> bool {
        &&& self.map.inv()
        &&& self.map.width >= 8
        &&& self.map.height >= 8
    }

    /// A builder over the default-sized all-wall map, loading the built-in
    /// vault template.
    pub fn new(new_depth: i32) -> (r: PrefabBuilder)
        ensures
            r.wf(),
            r.map.width == MAP_WIDTH,
            r.map.height == MAP_HEIGHT,
            r.map.depth == new_depth,
            r.depth == new_depth,
            no_stairs(r.map),
    {
        PrefabBuilder {
            map: Grid::new(MAP_WIDTH, MAP_HEIGHT, new_depth),
            starting_position: Position { x: 0, y: 0 },
            depth: new_depth,
            history: Vec::new(),
            mode: PrefabMode::Constant { level: vault_level() },
            spawns: Vec::new(),
            show_snapshots: false,
        }
    }

    /// Capture a visualization frame if the visualizer is enabled.
    pub fn take_snapshot(&mut self)
        requires
            old(self).wf(),
        ensures
            final(self).wf(),
            final(self).map == old(self).map,
            final(self).starting_position == old(self).starting_position,
            final(self).depth == old(self).depth,
            final(self).show_snapshots == old(self).show_snapshots,
    {
        match build_snapshot(&self.map, self.show_snapshots) {
            Option::Some(t) => {
                self.history.push(t);
            },
            Option::None => {},
        }
    }

    /// Stamp one template character onto tile (x, y): space is floor, `#` is
    /// wall, `@` floor plus the start, `>` the stairs, and letters floor plus
    /// a named spawn; anything else is left as it stands.
    pub fn parse_map_character(&mut self, cell: char, x: i32, y: i32)
        requires
            old(self).wf(),
            old(self).map.in_bounds(x as int, y as int),
        ensures
            final(self).wf(),
            final(self).map.width == old(self).map.width,
            final(self).map.height == old(self).map.height,
            final(self).map.depth == old(self).map.depth,
            final(self).depth == old(self).depth,
            final(self).mode == old(self).mode,
            final(self).show_snapshots == old(self).show_snapshots,
            // exactly the addressed tile changes, to the kind the character
            // names; unknown characters change nothing
            final(self).map.tiles@ == (
                if cell == ' ' || cell == '@' || cell == 'g' || cell == 'o'
                    || cell == '^' || cell == '!' {
                    old(self).map.tiles@.update(
                        old(self).map.idx(x as int, y as int), TileType::Floor)
                } else if cell == '#' {
                    old(self).map.tiles@.update(
                        old(self).map.idx(x as int, y as int), TileType::Wall)
                } else if cell == '>' {
                    old(self).map.tiles@.update(
                        old(self).map.idx(x as int, y as int), TileType::StairsDown)
                } else {
                    old(self).map.tiles@
                }),
            // `@` moves the start to this tile; nothing else does
            final(self).starting_position == (
                if cell == '@' {
                    Position { x, y }
                } else {
                    old(self).starting_position
                }),
            // the letter glyphs append one spawn hint at this tile
            final(self).spawns@.len() == old(self).spawns@.len()
                + (if cell == 'g' || cell == 'o' || cell == '^' || cell == '!' {
                    1int
                } else {
                    0
                }),
            forall|k: int| 0 <= k < old(self).spawns@.len()
                ==> final(self).spawns@[k] == old(self).spawns@[k],
            (cell == 'g' || cell == 'o' || cell == '^' || cell == '!')
                ==> final(self).spawns@.last().0
                    == old(self).map.idx(x as int, y as int),
            cell == 'g' ==> final(self).spawns@.last().1@ == "Goblin"@,
            cell == 'o' ==> final(self).spawns@.last().1@ == "Orc"@,
            cell == '^' ==> final(self).spawns@.last().1@ == "Bear Trap"@,
            cell == '!' ==> final(self).spawns@.last().1@ == "Health Potion"@,
    {
        if cell == ' ' {
            self.map.set_floor(x, y);
        } else if cell == '#' {
            self.map.set_wall(x, y);
        } else if cell == '@' {
            self.map.set_floor(x, y);
            self.starting_position = Position { x, y };
        } else if cell == '>' {
            self.map.set_tile(x, y, TileType::StairsDown);
        } else if cell == 'g' {
            self.map.set_floor(x, y);
            let i = self.map.xy_idx(x, y);
            self.spawns.push((i, String::from_str("Goblin")));
        } else if cell == 'o' {
            self.map.set_floor(x, y);
            let i = self.map.xy_idx(x, y);
            self.spawns.push((i, String::from_str("Orc")));
        } else if cell == '^' {
            self.map.set_floor(x, y);
            let i = self.map.xy_idx(x, y);
            self.spawns.push((i, String::from_str("Bear Trap")));
        } else if cell == '!' {
            self.map.set_floor(x, y);
            let i = self.map.xy_idx(x, y);
            self.spawns.push((i, String::from_str("Health Potion")));
        }
    }

    /// Stamp a whole ASCII template row-major onto the map, skipping line
    /// breaks and treating non-breaking spaces as floor.
    pub fn load_ascii_map(&mut self, level: &PrefabLevel)
        requires
            old(self).wf(),
            1 <= level.width <= 100000,
        ensures
            final(self).wf(),
            final(self).map.width == old(self).map.width,
            final(self).map.height == old(self).map.height,
            final(self).map.depth == old(self).map.depth,
            final(self).depth == old(self).depth,
            final(self).mode == old(self).mode,
            final(self).show_snapshots == old(self).show_snapshots,
    {
        let n = level.template.unicode_len();
        let mut i: usize = 0;
        let mut tx: usize = 0;
        let mut ty: usize = 0;
        while i < n
            invariant
                self.wf(),
                self.map.width == old(self).map.width,
                self.map.height == old(self).map.height,
                self.map.depth == old(self).map.depth,
                self.depth == old(self).depth,
                self.mode == old(self).mode,
                self.show_snapshots == old(self).show_snapshots,
                n == level.template@.len(),
                i <= n,
                tx < level.width,
                1 <= level.width <= 100000,
                ty <= i,
            decreases n - i,
        {
            let mut c = level.template.get_char(i);
            if c == '\u{a0}' {
                c = ' ';
            }
            if c != '\r' && c != '\n' {
                if tx < self.map.width as usize && ty < self.map.height as usize {
                    self.parse_map_character(c, tx as i32, ty as i32);
                }
                tx = tx + 1;
                if tx >= level.width {
                    tx = 0;
                    ty = ty + 1;
                }
            }
            i = i + 1;
        }
    }

    /// Stamp a pre-read cell-art glyph grid onto the map: glyph 32 (space)
    /// is floor and glyph 35 (`#`) is wall, as the external resource format
    /// encodes them; everything else is left as it stands. The caller reads
    /// the resource file and hands over its cells as plain values.
    pub fn load_cell_glyphs(&mut self, width: usize, height: usize, glyphs: &Vec<u32>)
        requires
            old(self).wf(),
            1 <= width <= 100000,
            glyphs@.len() == width * height,
        ensures
            final(self).wf(),
            final(self).map.width == old(self).map.width,
            final(self).map.height == old(self).map.height,
            final(self).map.depth == old(self).map.depth,
            final(self).depth == old(self).depth,
            final(self).mode == old(self).mode,
            final(self).show_snapshots == old(self).show_snapshots,
    {
        let n = glyphs.len();
        let mut i: usize = 0;
        let mut tx: usize = 0;
        let mut ty: usize = 0;
        while i < n
            invariant
                self.wf(),
                self.map.width == old(self).map.width,
                self.map.height == old(self).map.height,
                self.map.depth == old(self).map.depth,
                self.depth == old(self).depth,
                self.mode == old(self).mode,
                self.show_snapshots == old(self).show_snapshots,
                n == glyphs@.len(),
                i <= n,
                tx < width,
                1 <= width <= 100000,
                ty <= i,
            decreases n - i,
        {
            let g = glyphs[i];
            if tx < self.map.width as usize && ty < self.map.height as usize {
                if g == 32 {
                    self.map.set_floor(tx as i32, ty as i32);
                } else if g == 35 {
                    self.map.set_wall(tx as i32, ty as i32);
                }
            }
            tx = tx + 1;
            if tx >= width {
                tx = 0;
                ty = ty + 1;
            }
            i = i + 1;
        }
    }

    /// Build the map from the configured source. A template that names its
    /// own start keeps it when the named tile is walkable; otherwise the map
    /// is repaired from a found floor tile and the exit stamped, exactly as
    /// the noise generators do. The start always rests on a walkable tile.
    pub fn build(&mut self, rng: &mut RandomStream)
        requires
            old(self).wf(),
        ensures
            final(self).wf(),
            final(self).map.width == old(self).map.width,
            final(self).map.height == old(self).map.height,
            final(self).map.depth == old(self).map.depth,
            final(self).depth == old(self).depth,
            final(self).map.in_bounds(
                final(self).starting_position.x as int,
                final(self).starting_position.y as int,
            ),
            walkable(final(self).map.tiles@[final(self).map.idx(
                final(self).starting_position.x as int,
                final(self).starting_position.y as int,
            )]),
    {
        let mode = self.mode;
        match mode {
            PrefabMode::Constant { level } => {
                if level.width >= 1 && level.width <= 100000 {
                    self.load_ascii_map(&level);
                }
            },
            PrefabMode::RexLevel { template: _ } => {
                // the external cell-art resource is read outside the library;
                // with nothing supplied the map stays all wall and the repair
                // path below takes over
            },
        }
        self.take_snapshot();

        let sp = self.starting_position;
        let mut start_ok = false;
        if 0 <= sp.x && sp.x < self.map.width && 0 <= sp.y && sp.y < self.map.height
            && !(sp.x == 0 && sp.y == 0) {
            let t = self.map.get_tile(sp.x, sp.y);
            start_ok = t.is_walkable();
        }

        if !start_ok {
            // no usable start came from the template: repair connectivity
            // and stamp a fresh exit
            clear_stairs(&mut self.map);
            ensure_floor_exists(&mut self.map);
            let start = find_starting_floor(&self.map);
            self.starting_position = start;
            let _exit = finalize_exit(&mut self.map, start.x, start.y);
            self.take_snapshot();
        }
    }

    /// A copy of the finished map.
    pub fn get_map(&self) -> (m: Grid)
        ensures
            m.width == self.map.width,
            m.height == self.map.height,
            m.depth == self.map.depth,
            m.tiles@ == self.map.tiles@,
    {
        self.map.clone()
    }

    /// The chosen starting position.
    pub fn get_starting_position(&self) -> (p: Position)
        ensures
            p == self.starting_position,
    {
        self.starting_position
    }
}

} // verus!
